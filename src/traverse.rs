use vstd::prelude::*;
use crate::geometry::{GeometryModel, ValueModel, Kind, kind_of};

verus! {

/// The number of polygons in a geometry: one for a polygon, `k` for a
/// multipolygon of `k` polygons, summed through nested collections.
pub open spec fn polygon_count<P, M>(g: GeometryModel<P, M>) -> nat
    decreases g,
{
    match g.value {
        ValueModel::Polygon(_) => 1,
        ValueModel::MultiPolygon(ps) => ps.len(),
        ValueModel::GeometryCollection(gs) => polygon_count_all(gs),
        _ => 0,
    }
}

pub open spec fn polygon_count_all<P, M>(gs: Seq<GeometryModel<P, M>>) -> nat
    decreases gs,
{
    if gs.len() == 0 {
        0
    } else {
        polygon_count_all(gs.drop_last()) + polygon_count(gs[gs.len() - 1])
    }
}

/// The ring sets handed to the pole finder, in traversal order.
pub open spec fn polygons_of<P, M>(g: GeometryModel<P, M>) -> Seq<Seq<Seq<P>>>
    decreases g,
{
    match g.value {
        ValueModel::Polygon(rs) => seq![rs],
        ValueModel::MultiPolygon(ps) => ps,
        ValueModel::GeometryCollection(gs) => polygons_of_all(gs),
        _ => Seq::empty(),
    }
}

pub open spec fn polygons_of_all<P, M>(gs: Seq<GeometryModel<P, M>>) -> Seq<Seq<Seq<P>>>
    decreases gs,
{
    if gs.len() == 0 {
        Seq::empty()
    } else {
        polygons_of_all(gs.drop_last()) + polygons_of(gs[gs.len() - 1])
    }
}

/// Whether a point, multipoint, line string or multiline string occurs
/// anywhere in the geometry.
pub open spec fn has_unsupported<P, M>(g: GeometryModel<P, M>) -> bool
    decreases g,
{
    match g.value {
        ValueModel::GeometryCollection(gs) => has_unsupported_all(gs),
        v => kind_of(v) == Kind::Unsupported,
    }
}

pub open spec fn has_unsupported_all<P, M>(gs: Seq<GeometryModel<P, M>>) -> bool
    decreases gs,
{
    if gs.len() == 0 {
        false
    } else {
        has_unsupported_all(gs.drop_last()) || has_unsupported(gs[gs.len() - 1])
    }
}

/// The geometry with each polygon replaced by its label point and each
/// multipolygon by the multipoint of its labels; `labels` holds the labels
/// of `polygons_of(g)` in order. With `drop`, collections lose their
/// unsupported children. The members of every node are kept.
pub open spec fn labelled<P, M>(g: GeometryModel<P, M>, labels: Seq<P>, drop: bool) -> GeometryModel<P, M>
    decreases g,
{
    GeometryModel { value: labelled_value(g.value, labels, drop), members: g.members }
}

pub open spec fn labelled_value<P, M>(v: ValueModel<P, M>, labels: Seq<P>, drop: bool) -> ValueModel<P, M>
    decreases v,
{
    match v {
        ValueModel::Polygon(_) => ValueModel::Point(labels[0]),
        ValueModel::MultiPolygon(ps) => ValueModel::MultiPoint(labels.take(ps.len() as int)),
        ValueModel::GeometryCollection(gs) => ValueModel::GeometryCollection(
            labelled_all(gs, labels, drop),
        ),
        other => other,
    }
}

pub open spec fn labelled_all<P, M>(gs: Seq<GeometryModel<P, M>>, labels: Seq<P>, drop: bool) -> Seq<GeometryModel<P, M>>
    decreases gs,
{
    if gs.len() == 0 {
        Seq::empty()
    } else {
        let init = gs.drop_last();
        let last = gs[gs.len() - 1];
        let n = polygon_count_all(init) as int;
        let front = labelled_all(init, labels.take(n), drop);
        if drop && kind_of(last.value) == Kind::Unsupported {
            front
        } else {
            front.push(labelled(last, labels.skip(n), drop))
        }
    }
}

pub proof fn lemma_count_push<P, M>(gs: Seq<GeometryModel<P, M>>, g: GeometryModel<P, M>)
    ensures
        polygon_count_all(gs.push(g)) == polygon_count_all(gs) + polygon_count(g),
        polygons_of_all(gs.push(g)) == polygons_of_all(gs) + polygons_of(g),
        has_unsupported_all(gs.push(g)) == (has_unsupported_all(gs) || has_unsupported(g)),
{
    assert(gs.push(g).drop_last() =~= gs);
}

/// Counting a concatenation adds the counts of its parts.
pub proof fn lemma_count_concat<P, M>(a: Seq<GeometryModel<P, M>>, b: Seq<GeometryModel<P, M>>)
    ensures
        polygon_count_all(a + b) == polygon_count_all(a) + polygon_count_all(b),
        polygons_of_all(a + b) == polygons_of_all(a) + polygons_of_all(b),
        has_unsupported_all(a + b) == (has_unsupported_all(a) || has_unsupported_all(b)),
    decreases b.len(),
{
    if b.len() == 0 {
        assert(a + b =~= a);
        assert(polygons_of_all(a) + polygons_of_all(b) =~= polygons_of_all(a));
    } else {
        let bi = b.drop_last();
        let bl = b[b.len() - 1];
        lemma_count_concat(a, bi);
        assert((a + b).drop_last() =~= a + bi);
        assert((a + b)[(a + b).len() - 1] == bl);
        assert(polygons_of_all(a + bi) + polygons_of(bl) =~= polygons_of_all(a) + (
        polygons_of_all(bi) + polygons_of(bl)));
    }
}

/// The counts of a prefix never exceed the count of the whole sequence.
pub proof fn lemma_count_prefix<P, M>(gs: Seq<GeometryModel<P, M>>, i: int)
    requires
        0 <= i < gs.len(),
    ensures
        polygon_count_all(gs.take(i)) + polygon_count(gs[i]) == polygon_count_all(gs.take(i + 1)),
        polygon_count_all(gs.take(i + 1)) <= polygon_count_all(gs),
{
    assert(gs.take(i + 1) =~= gs.take(i).push(gs[i]));
    lemma_count_push(gs.take(i), gs[i]);
    assert(gs =~= gs.take(i + 1) + gs.skip(i + 1));
    lemma_count_concat(gs.take(i + 1), gs.skip(i + 1));
}

/// There are as many ring sets as the polygon count says.
pub proof fn lemma_polygons_len<P, M>(g: GeometryModel<P, M>)
    ensures
        polygons_of(g).len() == polygon_count(g),
    decreases g,
{
    if let ValueModel::GeometryCollection(gs) = g.value {
        lemma_polygons_len_all(gs);
    }
}

pub proof fn lemma_polygons_len_all<P, M>(gs: Seq<GeometryModel<P, M>>)
    ensures
        polygons_of_all(gs).len() == polygon_count_all(gs),
    decreases gs,
{
    if gs.len() > 0 {
        lemma_polygons_len_all(gs.drop_last());
        lemma_polygons_len(gs[gs.len() - 1]);
    }
}

/// One step of `labelled_all`: the labels of the last geometry follow those
/// of the geometries before it.
pub proof fn lemma_labelled_push<P, M>(
    gs: Seq<GeometryModel<P, M>>,
    g: GeometryModel<P, M>,
    labels: Seq<P>,
    drop: bool,
)
    ensures
        labelled_all(gs.push(g), labels, drop) == ({
            let n = polygon_count_all(gs) as int;
            let front = labelled_all(gs, labels.take(n), drop);
            if drop && kind_of(g.value) == Kind::Unsupported {
                front
            } else {
                front.push(labelled(g, labels.skip(n), drop))
            }
        }),
{
    assert(gs.push(g).drop_last() =~= gs);
}

} // verus!
