use vstd::prelude::*;
use std::collections::VecDeque;
use crate::geometry::{
    Geometry, Kind, Rings, Value, ValueModel, classify, kind_of, lemma_collection_view,
    polygons_view, rings_view, views,
};
use crate::traverse::{
    has_unsupported, has_unsupported_all, labelled, labelled_all, lemma_count_concat,
    lemma_count_prefix, lemma_count_push, lemma_labelled_push, polygon_count, polygon_count_all,
    polygons_of, polygons_of_all,
};

verus! {

broadcast use vstd::std_specs::vec::axiom_vec_index_decreases;

/// The number of polygons in `g`, or `None` where it does not fit in a `usize`.
pub fn count_polygons<P, M>(g: &Geometry<P, M>) -> (r: Option<usize>)
    ensures
        match r {
            Some(n) => n == polygon_count(g@),
            None => polygon_count(g@) > usize::MAX,
        },
    decreases g,
{
    match &g.value {
        Value::Polygon(_) => Some(1),
        Value::MultiPolygon(ps) => Some(ps.len()),
        Value::GeometryCollection(gs) => {
            proof {
                lemma_collection_view(*gs);
            }
            let ghost all = views(gs@);
            let mut total: usize = 0;
            let mut i: usize = 0;
            while i < gs.len()
                invariant
                    i <= gs@.len(),
                    all == views(gs@),
                    g.value == Value::GeometryCollection(*gs),
                    g@.value == ValueModel::GeometryCollection(all),
                    total == polygon_count_all(all.take(i as int)),
                decreases gs@.len() - i,
            {
                proof {
                    lemma_count_prefix(all, i as int);
                    assert(decreases_to!(g => gs[i as int]));
                }
                let n = match count_polygons(&gs[i]) {
                    Some(n) => n,
                    None => return None,
                };
                total = match total.checked_add(n) {
                    Some(t) => t,
                    None => return None,
                };
                i = i + 1;
            }
            proof {
                assert(all.take(i as int) =~= all);
            }
            Some(total)
        },
        _ => Some(0),
    }
}

/// Whether a point, multipoint, line string or multiline string occurs
/// anywhere in `g`.
pub fn contains_unsupported<P, M>(g: &Geometry<P, M>) -> (r: bool)
    ensures
        r == has_unsupported(g@),
    decreases g,
{
    match &g.value {
        Value::GeometryCollection(gs) => {
            proof {
                lemma_collection_view(*gs);
            }
            let ghost all = views(gs@);
            let mut i: usize = 0;
            while i < gs.len()
                invariant
                    i <= gs@.len(),
                    all == views(gs@),
                    g.value == Value::GeometryCollection(*gs),
                    g@.value == ValueModel::GeometryCollection(all),
                    !has_unsupported_all(all.take(i as int)),
                decreases gs@.len() - i,
            {
                proof {
                    assert(all.take(i + 1) =~= all.take(i as int).push(all[i as int]));
                    lemma_count_push(all.take(i as int), all[i as int]);
                    assert(decreases_to!(g => gs[i as int]));
                }
                if contains_unsupported(&gs[i]) {
                    proof {
                        assert(all =~= all.take(i + 1) + all.skip(i + 1));
                        lemma_count_concat(all.take(i + 1), all.skip(i + 1));
                    }
                    return true;
                }
                i = i + 1;
            }
            proof {
                assert(all.take(i as int) =~= all);
            }
            false
        },
        Value::Polygon(_) => false,
        Value::MultiPolygon(_) => false,
        _ => true,
    }
}

/// The ring sets of a sequence of references, as models.
pub open spec fn ring_sets<P>(s: Seq<&Rings<P>>) -> Seq<Seq<Seq<P>>> {
    s.map_values(|r: &Rings<P>| rings_view(r@))
}

/// Appends to `out` a reference to the rings of each polygon of `g`, in
/// traversal order.
pub fn collect_polygons<'a, P, M>(g: &'a Geometry<P, M>, out: &mut Vec<&'a Rings<P>>)
    ensures
        ring_sets(final(out)@) == ring_sets(old(out)@) + polygons_of(g@),
    decreases g,
{
    match &g.value {
        Value::Polygon(rs) => {
            out.push(rs);
            proof {
                assert(ring_sets(final(out)@) =~= ring_sets(old(out)@) + polygons_of(g@));
            }
        },
        Value::MultiPolygon(ps) => {
            let ghost start = out@;
            let mut i: usize = 0;
            while i < ps.len()
                invariant
                    i <= ps@.len(),
                    g@.value == ValueModel::<P, M>::MultiPolygon(polygons_view(ps@)),
                    ring_sets(out@) == ring_sets(start) + polygons_view(ps@).take(i as int),
                decreases ps@.len() - i,
            {
                let ghost prev = out@;
                out.push(&ps[i]);
                proof {
                    let p = rings_view(ps@[i as int]@);
                    assert(ring_sets(out@) =~= ring_sets(prev).push(p));
                    assert(polygons_view(ps@).take(i + 1) =~= polygons_view(ps@).take(i as int).push(p));
                    assert(ring_sets(out@) =~= ring_sets(start) + polygons_view(ps@).take(i + 1));
                }
                i = i + 1;
            }
            proof {
                assert(polygons_view(ps@).take(i as int) =~= polygons_view(ps@));
            }
        },
        Value::GeometryCollection(gs) => {
            proof {
                lemma_collection_view(*gs);
            }
            let ghost all = views(gs@);
            let ghost start = out@;
            let mut i: usize = 0;
            while i < gs.len()
                invariant
                    i <= gs@.len(),
                    all == views(gs@),
                    g.value == Value::GeometryCollection(*gs),
                    g@.value == ValueModel::GeometryCollection(all),
                    ring_sets(out@) == ring_sets(start) + polygons_of_all(all.take(i as int)),
                decreases gs@.len() - i,
            {
                proof {
                    assert(all.take(i + 1) =~= all.take(i as int).push(all[i as int]));
                    lemma_count_push(all.take(i as int), all[i as int]);
                    assert(decreases_to!(g => gs[i as int]));
                }
                collect_polygons(&gs[i], out);
                proof {
                    assert(ring_sets(out@) =~= ring_sets(start) + polygons_of_all(all.take(i + 1)));
                }
                i = i + 1;
            }
            proof {
                assert(all.take(i as int) =~= all);
            }
        },
        _ => {
            proof {
                assert(ring_sets(final(out)@) =~= ring_sets(old(out)@) + polygons_of(g@));
            }
        },
    }
}

/// Labels a polygon or a multipolygon: a polygon becomes the point at the
/// front of `labels`, a multipolygon of `k` polygons the multipoint of the
/// first `k` labels, in order. The labels used are taken off `labels`.
pub fn label_value<P, M>(g: Geometry<P, M>, labels: &mut VecDeque<P>) -> (r: Geometry<P, M>)
    requires
        kind_of(g@.value) == Kind::Polygon || kind_of(g@.value) == Kind::MultiPolygon,
        polygon_count(g@) <= old(labels)@.len(),
    ensures
        r@.members == g@.members,
        g@.value is Polygon ==> r@.value == ValueModel::<P, M>::Point(old(labels)@[0]),
        g@.value is MultiPolygon ==> r@.value == ValueModel::<P, M>::MultiPoint(
            old(labels)@.take(polygon_count(g@) as int),
        ),
        final(labels)@ == old(labels)@.skip(polygon_count(g@) as int),
{
    let ghost start = labels@;
    let Geometry { value, members } = g;
    let value = match value {
        Value::MultiPolygon(ps) => {
            let mut pts: Vec<P> = Vec::new();
            let mut i: usize = 0;
            while i < ps.len()
                invariant
                    i <= ps@.len(),
                    ps@.len() <= start.len(),
                    pts@ == start.take(i as int),
                    labels@ == start.skip(i as int),
                decreases ps@.len() - i,
            {
                let p = labels.pop_front().unwrap();
                pts.push(p);
                proof {
                    assert(pts@ =~= start.take(i + 1));
                    assert(labels@ =~= start.skip(i + 1));
                }
                i = i + 1;
            }
            Value::MultiPoint(pts)
        },
        _ => {
            let p = labels.pop_front().unwrap();
            proof {
                assert(labels@ =~= start.skip(1));
            }
            Value::Point(p)
        },
    };
    Geometry { value, members }
}

/// Labels every polygon and multipolygon of `g`, through nested collections,
/// taking the labels off the front of `labels` in traversal order; other
/// geometries stay as they are, or, with `drop`, are left out of the
/// collections that hold them.
pub fn label_geometry<P, M>(g: Geometry<P, M>, labels: &mut VecDeque<P>, drop: bool) -> (r: Geometry<P, M>)
    requires
        polygon_count(g@) <= old(labels)@.len(),
    ensures
        r@ == labelled(g@, old(labels)@.take(polygon_count(g@) as int), drop),
        final(labels)@ == old(labels)@.skip(polygon_count(g@) as int),
    decreases g,
{
    match classify(&g.value) {
        Kind::Polygon | Kind::MultiPolygon => {
            proof {
                let n = polygon_count(g@) as int;
                assert(labels@.take(n).take(n) =~= labels@.take(n));
            }
            label_value(g, labels)
        },
        Kind::Collection => label_collection(g, labels, drop),
        Kind::Unsupported => {
            proof {
                assert(labels@.skip(0) =~= labels@);
            }
            g
        },
    }
}

fn label_collection<P, M>(g: Geometry<P, M>, labels: &mut VecDeque<P>, drop: bool) -> (r: Geometry<P, M>)
    requires
        kind_of(g@.value) == Kind::Collection,
        polygon_count(g@) <= old(labels)@.len(),
    ensures
        r@ == labelled(g@, old(labels)@.take(polygon_count(g@) as int), drop),
        final(labels)@ == old(labels)@.skip(polygon_count(g@) as int),
    decreases g, 1int,
{
    let ghost g_in = g;
    let ghost start = labels@;
    let Geometry { value, members } = g;
    let value = match value {
        Value::GeometryCollection(gs) => {
            proof {
                lemma_collection_view(gs);
            }
            let ghost all = views(gs@);
            let ghost src = gs;
            let mut out: Vec<Geometry<P, M>> = Vec::new();
            for child in it: gs.into_iter()
                invariant
                    it.seq() == src@,
                    all == views(src@),
                    g_in == g,
                    g_in.value == Value::GeometryCollection(src),
                    polygon_count_all(all) <= start.len(),
                    views(out@) == labelled_all(
                        all.take(it.index() as int),
                        start.take(polygon_count_all(all.take(it.index() as int)) as int),
                        drop,
                    ),
                    labels@ == start.skip(polygon_count_all(all.take(it.index() as int)) as int),
            {
                let ghost k = it.index() as int;
                let ghost before = polygon_count_all(all.take(k)) as int;
                let ghost c = polygon_count(child@) as int;
                proof {
                    lemma_count_prefix(all, k);
                    assert(all.take(k + 1) =~= all.take(k).push(child@));
                    lemma_labelled_push(all.take(k), child@, start.take(before + c), drop);
                    assert(start.take(before + c).take(before) =~= start.take(before));
                    assert(start.take(before + c).skip(before) =~= start.skip(before).take(c));
                    assert(start.skip(before).skip(c) =~= start.skip(before + c));
                }
                if drop && classify(&child.value) == Kind::Unsupported {
                    proof {
                        assert(start.skip(before + c) =~= start.skip(before));
                    }
                } else {
                    proof {
                        assert(decreases_to!(g_in.value => g_in.value->GeometryCollection_0));
                        assert(decreases_to!(g_in => src[k]));
                    }
                    let ghost prev = out@;
                    let r = label_geometry(child, labels, drop);
                    out.push(r);
                    proof {
                        assert(views(out@) =~= views(prev).push(r@));
                    }
                }
            }
            proof {
                assert(all.take(all.len() as int) =~= all);
                lemma_collection_view(out);
            }
            Value::GeometryCollection(out)
        },
        other => other,
    };
    Geometry { value, members }
}

} // verus!
