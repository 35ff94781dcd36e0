use vstd::prelude::*;

verus! {

/// Separator between the values of a multi-valued OSM tag.
pub const OSM_TAG_SEPARATOR: &'static str = ";";

/// `parts` joined into one sequence, with `sep` between each two neighbours.
pub open spec fn join_with(parts: Seq<Seq<char>>, sep: Seq<char>) -> Seq<char>
    decreases parts.len(),
{
    if parts.len() == 0 {
        Seq::empty()
    } else if parts.len() == 1 {
        parts[0]
    } else {
        join_with(parts.drop_last(), sep) + sep + parts.last()
    }
}

/// The views of the strings in `values`.
pub open spec fn views_of(values: Seq<String>) -> Seq<Seq<char>> {
    values.map_values(|s: String| s@)
}

/// The values that are not the empty string, in their order.
pub open spec fn non_empty_values(values: Seq<Seq<char>>) -> Seq<Seq<char>> {
    values.filter(|v: Seq<char>| v.len() > 0)
}

/// What `join_osm_values` returns: no value when every value is empty,
/// else the non-empty values joined by `;`.
pub open spec fn joined_osm_values(values: Seq<Seq<char>>) -> Option<Seq<char>> {
    let kept = non_empty_values(values);
    if kept.len() == 0 {
        None
    } else {
        Some(join_with(kept, seq![';']))
    }
}

/// Joins the non-empty values with `;`; `None` when no value is non-empty.
pub fn join_osm_values(values: &[String]) -> (r: Option<String>)
    ensures
        r matches Some(s) ==> joined_osm_values(views_of(values@)) == Some(s@),
        r is None ==> joined_osm_values(views_of(values@)) is None,
{
    let ghost vs = views_of(values@);
    let mut out = String::new();
    let mut any = false;
    proof {
        reveal_strlit(";");
        reveal_with_fuel(Seq::<_>::filter, 1);
        assert(vs.take(0) =~= Seq::<Seq<char>>::empty());
    }
    for i in 0..values.len()
        invariant
            vs == views_of(values@),
            any == (non_empty_values(vs.take(i as int)).len() > 0),
            out@ == join_with(non_empty_values(vs.take(i as int)), seq![';']),
    {
        let v = values[i].as_str();
        proof {
            reveal_with_fuel(Seq::<_>::filter, 1);
            assert(vs.take(i + 1).drop_last() =~= vs.take(i as int));
            assert(vs.take(i + 1).last() == v@);
        }
        if !v.is_empty() {
            let ghost before = non_empty_values(vs.take(i as int));
            if any {
                proof {
                    reveal_strlit(";");
                    assert(OSM_TAG_SEPARATOR@ =~= seq![';']);
                }
                out.append(OSM_TAG_SEPARATOR);
            }
            out.append(v);
            any = true;
            proof {
                let after = non_empty_values(vs.take(i + 1));
                assert(after == before.push(v@));
                assert(after.drop_last() =~= before);
                if before.len() == 0 {
                    assert(out@ =~= after[0]);
                } else {
                    assert(out@ =~= join_with(before, seq![';']) + seq![';'] + v@);
                }
            }
        }
    }
    proof {
        assert(vs.take(values@.len() as int) =~= vs);
    }
    if any {
        Some(out)
    } else {
        None
    }
}

/// `s` cut at each occurrence of `sep` (as `str::split` cuts it: an empty
/// sequence gives one empty piece).
pub open spec fn split_at_char(s: Seq<char>, sep: char) -> Seq<Seq<char>>
    decreases s.len(),
{
    if s.len() == 0 {
        seq![Seq::empty()]
    } else {
        let prev = split_at_char(s.drop_last(), sep);
        if s.last() == sep {
            prev.push(Seq::empty())
        } else {
            prev.update(prev.len() - 1, prev.last().push(s.last()))
        }
    }
}

/// Splitting never gives an empty list of pieces.
proof fn lemma_split_non_empty(s: Seq<char>, sep: char)
    ensures
        split_at_char(s, sep).len() > 0,
    decreases s.len(),
{
    if s.len() > 0 {
        lemma_split_non_empty(s.drop_last(), sep);
    }
}

/// Appending characters other than `sep` extends the last piece.
proof fn lemma_split_append(s: Seq<char>, y: Seq<char>, sep: char)
    requires
        !y.contains(sep),
    ensures
        split_at_char(s + y, sep) == split_at_char(s, sep).update(
            split_at_char(s, sep).len() - 1,
            split_at_char(s, sep).last() + y,
        ),
    decreases y.len(),
{
    lemma_split_non_empty(s, sep);
    if y.len() == 0 {
        assert(s + y =~= s);
        assert(split_at_char(s, sep).last() + y =~= split_at_char(s, sep).last());
        assert(split_at_char(s, sep).update(
            split_at_char(s, sep).len() - 1,
            split_at_char(s, sep).last() + y,
        ) =~= split_at_char(s, sep));
    } else {
        let y0 = y.drop_last();
        assert(!y0.contains(sep)) by {
            if y0.contains(sep) {
                let k = choose|k: int| 0 <= k < y0.len() && y0[k] == sep;
                assert(y[k] == sep);
            }
        }
        lemma_split_append(s, y0, sep);
        assert((s + y).drop_last() =~= s + y0);
        assert((s + y).last() == y.last());
        assert(y.last() != sep) by {
            assert(y[y.len() - 1] == y.last());
        }
        lemma_split_non_empty(s + y0, sep);
        let p = split_at_char(s, sep);
        assert(p.last() + y =~= (p.last() + y0).push(y.last()));
        assert(split_at_char(s + y, sep) =~= p.update(p.len() - 1, p.last() + y));
    }
}

/// Joining pieces that do not hold the separator and cutting the result at
/// the separator gives the pieces back.
proof fn lemma_split_of_join(parts: Seq<Seq<char>>, sep: char)
    requires
        parts.len() > 0,
        forall|i: int| 0 <= i < parts.len() ==> !(#[trigger] parts[i]).contains(sep),
    ensures
        split_at_char(join_with(parts, seq![sep]), sep) == parts,
    decreases parts.len(),
{
    if parts.len() == 1 {
        lemma_split_append(Seq::empty(), parts[0], sep);
        assert(Seq::<char>::empty() + parts[0] =~= parts[0]);
        assert(split_at_char(Seq::<char>::empty(), sep) =~= seq![Seq::<char>::empty()]);
        assert(split_at_char(parts[0], sep) =~= parts);
    } else {
        let init = parts.drop_last();
        assert forall|i: int| 0 <= i < init.len() implies !(#[trigger] init[i]).contains(sep) by {
            assert(init[i] == parts[i]);
        }
        lemma_split_of_join(init, sep);
        let j = join_with(init, seq![sep]);
        assert((j + seq![sep]).drop_last() =~= j);
        assert(split_at_char(j + seq![sep], sep) == split_at_char(j, sep).push(Seq::empty()));
        assert(!parts.last().contains(sep)) by {
            assert(parts[parts.len() - 1] == parts.last());
        }
        lemma_split_append(j + seq![sep], parts.last(), sep);
        assert(Seq::<char>::empty() + parts.last() =~= parts.last());
        assert(split_at_char(j + seq![sep] + parts.last(), sep) =~= parts);
    }
}

/// What `join_osm_values` returns can be cut back into the values: when no
/// value holds `;`, the joined string is non-empty and splitting it at `;`
/// gives exactly the non-empty values, in order.
pub proof fn lemma_joined_values_split_back(values: Seq<Seq<char>>)
    requires
        forall|i: int| 0 <= i < values.len() ==> !(#[trigger] values[i]).contains(';'),
    ensures
        joined_osm_values(values) matches Some(s) ==> s.len() > 0 && split_at_char(s, ';')
            == non_empty_values(values),
{
    broadcast use vstd::seq_lib::group_filter_ensures;

    let kept = non_empty_values(values);
    if kept.len() > 0 {
        assert forall|i: int| 0 <= i < kept.len() implies !(#[trigger] kept[i]).contains(';') by {
            assert(kept.contains(kept[i]));
            values.lemma_filter_contains_rev(|v: Seq<char>| v.len() > 0, kept[i]);
            assert(values.contains(kept[i]));
            let k = choose|k: int| 0 <= k < values.len() && values[k] == kept[i];
            assert(!values[k].contains(';'));
        }
        lemma_split_of_join(kept, ';');
        lemma_join_length(kept, seq![';']);
    }
}

/// A join is at least as long as its last piece.
proof fn lemma_join_length(parts: Seq<Seq<char>>, sep: Seq<char>)
    requires
        parts.len() > 0,
        forall|i: int| 0 <= i < parts.len() ==> (#[trigger] parts[i]).len() > 0,
    ensures
        join_with(parts, sep).len() > 0,
{
    assert(parts[parts.len() - 1] == parts.last());
}

/// `views_of` keeps the strings, in order, as their characters.
pub proof fn lemma_views_of_entries(values: Seq<String>)
    ensures
        views_of(values).len() == values.len(),
        forall|i: int| 0 <= i < values.len() ==> #[trigger] views_of(values)[i] == values[i]@,
{
}

/// Joining one part gives that part; joining two non-empty lists of parts
/// puts the separator between the two joins.
pub proof fn lemma_join_with_concat(a: Seq<Seq<char>>, b: Seq<Seq<char>>, sep: Seq<char>)
    ensures
        a.len() == 1 ==> join_with(a, sep) == a[0],
        a.len() > 0 && b.len() > 0 ==> join_with(a + b, sep) == join_with(a, sep) + sep
            + join_with(b, sep),
    decreases b.len(),
{
    if a.len() > 0 && b.len() > 0 {
        if b.len() == 1 {
            assert((a + b).drop_last() =~= a);
            assert((a + b).last() == b[0]);
        } else {
            lemma_join_with_concat(a, b.drop_last(), sep);
            assert((a + b).drop_last() =~= a + b.drop_last());
            assert((a + b).last() == b.last());
            assert(join_with(a + b, sep) =~= join_with(a, sep) + sep + join_with(b, sep));
        }
    }
}

/// Exactly the empty values are dropped: a single value is kept, as the
/// whole result, if and only if it is non-empty.
pub proof fn lemma_joined_single_value(v: Seq<char>)
    ensures
        joined_osm_values(seq![v]) == if v.len() == 0 {
            None::<Seq<char>>
        } else {
            Some(v)
        },
{
    reveal_with_fuel(Seq::<_>::filter, 2);
    assert(seq![v].drop_last() =~= Seq::<Seq<char>>::empty());
    if v.len() > 0 {
        assert(non_empty_values(seq![v]) =~= seq![v]);
    } else {
        assert(non_empty_values(seq![v]) =~= Seq::<Seq<char>>::empty());
    }
}

/// No values join to nothing; the values of two lists join to the join of
/// each, with `;` between them when both have a non-empty value.
pub proof fn lemma_joined_concat(a: Seq<Seq<char>>, b: Seq<Seq<char>>)
    ensures
        joined_osm_values(Seq::<Seq<char>>::empty()) is None,
        joined_osm_values(a + b) == match (joined_osm_values(a), joined_osm_values(b)) {
            (None, y) => y,
            (Some(x), None) => Some(x),
            (Some(x), Some(y)) => Some(x + seq![';'] + y),
        },
{
    reveal_with_fuel(Seq::<_>::filter, 1);
    let p = |v: Seq<char>| v.len() > 0;
    Seq::filter_distributes_over_add(a, b, p);
    let ka = non_empty_values(a);
    let kb = non_empty_values(b);
    assert(non_empty_values(a + b) == ka + kb);
    if ka.len() == 0 {
        assert(ka + kb =~= kb);
    } else if kb.len() == 0 {
        assert(ka + kb =~= ka);
    } else {
        lemma_join_with_concat(ka, kb, seq![';']);
    }
}

} // verus!
