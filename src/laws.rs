use vstd::prelude::*;
use crate::document::{
    FeatureModel, GeoJsonModel, features_count, features_polygons, features_labelled,
    feature_labelled, document_count, document_polygons, lemma_features_push,
    lemma_features_concat, lemma_features_prefix,
};
use crate::dispatch::lemma_document_polygons_len;
use crate::geometry::{GeometryModel, ValueModel, Kind, kind_of};
use crate::traverse::{
    polygon_count, polygon_count_all, polygons_of, polygons_of_all, labelled, labelled_all, lemma_count_push,
    lemma_count_concat, lemma_labelled_push,
};

verus! {

/// A polygon always becomes a point, the first label; a multipolygon of `k`
/// polygons always becomes a multipoint of exactly `k` points, the `i`-th
/// being the label of its `i`-th polygon. Members are kept.
pub proof fn law_polygon_labels<P, M>(g: GeometryModel<P, M>, labels: Seq<P>, drop: bool)
    requires
        kind_of(g.value) == Kind::Polygon || kind_of(g.value) == Kind::MultiPolygon,
        labels.len() == polygon_count(g),
    ensures
        labelled(g, labels, drop).members == g.members,
        g.value is Polygon ==> labelled(g, labels, drop).value == ValueModel::<P, M>::Point(labels[0]),
        g.value is MultiPolygon ==> {
            &&& polygons_of(g) == g.value->MultiPolygon_0
            &&& labelled(g, labels, drop).value == ValueModel::<P, M>::MultiPoint(labels)
            &&& labels.len() == g.value->MultiPolygon_0.len()
        },
{
    assert(labels.take(labels.len() as int) =~= labels);
}

/// The count of a document is the number of ring sets handed to the pole
/// finder: one for each polygon and `k` for each multipolygon of `k`
/// polygons, at every depth.
pub proof fn law_count_matches_polygons<P, M>(d: GeoJsonModel<P, M>)
    ensures
        document_polygons(d).len() == document_count(d),
{
    lemma_document_polygons_len(d);
}

/// However the features are split between workers, the partial counts add
/// up to the count of the whole, and the ring sets of the parts, joined in
/// order, are those of the whole.
pub proof fn law_features_count_additive<P, M>(a: Seq<FeatureModel<P, M>>, b: Seq<FeatureModel<P, M>>)
    ensures
        features_count(a + b) == features_count(a) + features_count(b),
        features_polygons(a + b) == features_polygons(a) + features_polygons(b),
{
    lemma_features_concat(a, b);
}

/// Likewise for the children of a collection split between workers.
pub proof fn law_collection_count_additive<P, M>(a: Seq<GeometryModel<P, M>>, b: Seq<GeometryModel<P, M>>)
    ensures
        polygon_count_all(a + b) == polygon_count_all(a) + polygon_count_all(b),
        polygons_of_all(a + b) == polygons_of_all(a) + polygons_of_all(b),
{
    lemma_count_concat(a, b);
}

/// Labelling a sequence of features keeps their number and order, and each
/// feature keeps its members and whether it has a geometry; its geometry is
/// labelled with the labels of its own polygons, which follow those of the
/// features before it.
pub proof fn law_features_kept<P, M>(fs: Seq<FeatureModel<P, M>>, labels: Seq<P>, drop: bool)
    requires
        labels.len() == features_count(fs),
    ensures
        features_labelled(fs, labels, drop).len() == fs.len(),
        forall|i: int|
            0 <= i < fs.len() ==> {
                let r = #[trigger] features_labelled(fs, labels, drop)[i];
                &&& r.members == fs[i].members
                &&& (r.geometry is Some <==> fs[i].geometry is Some)
                &&& r == feature_labelled(
                    fs[i],
                    labels.subrange(
                        features_count(fs.take(i)) as int,
                        features_count(fs.take(i + 1)) as int,
                    ),
                    drop,
                )
            },
    decreases fs.len(),
{
    if fs.len() > 0 {
        let init = fs.drop_last();
        let last = fs.last();
        let n = features_count(init) as int;
        assert(init.push(last) =~= fs);
        lemma_features_push(init, last, labels, drop);
        law_features_kept(init, labels.take(n), drop);
        let r = features_labelled(fs, labels, drop);
        assert forall|i: int| 0 <= i < fs.len() implies {
            let ri = #[trigger] features_labelled(fs, labels, drop)[i];
            &&& ri.members == fs[i].members
            &&& (ri.geometry is Some <==> fs[i].geometry is Some)
            &&& ri == feature_labelled(
                fs[i],
                labels.subrange(
                    features_count(fs.take(i)) as int,
                    features_count(fs.take(i + 1)) as int,
                ),
                drop,
            )
        } by {
            if i < fs.len() - 1 {
                assert(fs.take(i) =~= init.take(i));
                assert(fs.take(i + 1) =~= init.take(i + 1));
                lemma_features_prefix(init, i, labels, drop);
                assert(labels.take(n).subrange(
                    features_count(init.take(i)) as int,
                    features_count(init.take(i + 1)) as int,
                ) =~= labels.subrange(
                    features_count(init.take(i)) as int,
                    features_count(init.take(i + 1)) as int,
                ));
            } else {
                assert(fs.take(i) =~= init);
                assert(fs.take(i + 1) =~= fs);
                assert(labels.skip(n) =~= labels.subrange(n, features_count(fs) as int));
            }
        }
    }
}

/// `b` is `a` with its polygons turned into points and its multipolygons
/// into multipoints of as many points, every other leaf equal, every
/// collection kept with as many children, and every member kept.
pub open spec fn same_nesting<P, M>(a: GeometryModel<P, M>, b: GeometryModel<P, M>) -> bool
    decreases a,
{
    &&& a.members == b.members
    &&& match a.value {
        ValueModel::Polygon(_) => b.value is Point,
        ValueModel::MultiPolygon(ps) => b.value is MultiPoint && b.value->MultiPoint_0.len() == ps.len(),
        ValueModel::GeometryCollection(gs) => b.value is GeometryCollection && same_nesting_all(
            gs,
            b.value->GeometryCollection_0,
        ),
        v => b.value == v,
    }
}

pub open spec fn same_nesting_all<P, M>(a: Seq<GeometryModel<P, M>>, b: Seq<GeometryModel<P, M>>) -> bool
    decreases a,
{
    &&& a.len() == b.len()
    &&& a.len() > 0 ==> {
        &&& same_nesting_all(a.drop_last(), b.drop_last())
        &&& same_nesting(a[a.len() - 1], b[b.len() - 1])
    }
}

/// Under the policy that keeps other geometries, labelling collapses only
/// the polygon leaves, at any depth of nested collections, and keeps every
/// other leaf and the nesting itself.
pub proof fn law_keep_preserves_nesting<P, M>(g: GeometryModel<P, M>, labels: Seq<P>)
    requires
        labels.len() == polygon_count(g),
    ensures
        same_nesting(g, labelled(g, labels, false)),
    decreases g,
{
    if let ValueModel::GeometryCollection(gs) = g.value {
        law_keep_preserves_nesting_all(gs, labels);
    } else if let ValueModel::MultiPolygon(ps) = g.value {
        assert(labels.take(ps.len() as int).len() == ps.len());
    }
}

pub proof fn law_keep_preserves_nesting_all<P, M>(gs: Seq<GeometryModel<P, M>>, labels: Seq<P>)
    requires
        labels.len() == polygon_count_all(gs),
    ensures
        same_nesting_all(gs, labelled_all(gs, labels, false)),
    decreases gs,
{
    if gs.len() > 0 {
        let init = gs.drop_last();
        let last = gs[gs.len() - 1];
        let n = polygon_count_all(init) as int;
        let r = labelled_all(gs, labels, false);
        law_keep_preserves_nesting_all(init, labels.take(n));
        law_keep_preserves_nesting(last, labels.skip(n));
        assert(r.drop_last() =~= labelled_all(init, labels.take(n), false));
    }
}

/// However the children of a collection are split between workers,
/// labelling each part with its own run of labels and joining the results in
/// order gives the labelling of the whole: the result does not depend on how
/// the work was shared out.
pub proof fn law_split_join<P, M>(
    a: Seq<GeometryModel<P, M>>,
    b: Seq<GeometryModel<P, M>>,
    labels: Seq<P>,
    drop: bool,
)
    requires
        labels.len() == polygon_count_all(a + b),
    ensures
        labelled_all(a + b, labels, drop) == labelled_all(
            a,
            labels.take(polygon_count_all(a) as int),
            drop,
        ) + labelled_all(b, labels.skip(polygon_count_all(a) as int), drop),
    decreases b.len(),
{
    lemma_count_concat(a, b);
    let ca = polygon_count_all(a) as int;
    if b.len() == 0 {
        assert(a + b =~= a);
        assert(labels.take(ca) =~= labels);
        assert(labelled_all(a, labels, drop) + Seq::empty() =~= labelled_all(a, labels, drop));
    } else {
        let bi = b.drop_last();
        let x = b[b.len() - 1];
        let cbi = polygon_count_all(bi) as int;
        assert(bi.push(x) =~= b);
        assert((a + bi).push(x) =~= a + b);
        lemma_count_concat(a, bi);
        lemma_count_push(bi, x);
        let n = ca + cbi;
        lemma_labelled_push(a + bi, x, labels, drop);
        lemma_labelled_push(bi, x, labels.skip(ca), drop);
        law_split_join(a, bi, labels.take(n), drop);
        assert(labels.take(n).take(ca) =~= labels.take(ca));
        assert(labels.take(n).skip(ca) =~= labels.skip(ca).take(cbi));
        assert(labels.skip(n) =~= labels.skip(ca).skip(cbi));
        let left = labelled_all(a, labels.take(ca), drop);
        let mid = labelled_all(bi, labels.skip(ca).take(cbi), drop);
        if !(drop && kind_of(x.value) == Kind::Unsupported) {
            let lx = labelled(x, labels.skip(n), drop);
            assert((left + mid).push(lx) =~= left + mid.push(lx));
        }
    }
}

/// The same for the features of a collection: the features may be labelled
/// in any grouping, and joining the groups in order gives the same result.
pub proof fn law_features_split_join<P, M>(
    a: Seq<FeatureModel<P, M>>,
    b: Seq<FeatureModel<P, M>>,
    labels: Seq<P>,
    drop: bool,
)
    requires
        labels.len() == features_count(a + b),
    ensures
        features_labelled(a + b, labels, drop) == features_labelled(
            a,
            labels.take(features_count(a) as int),
            drop,
        ) + features_labelled(b, labels.skip(features_count(a) as int), drop),
    decreases b.len(),
{
    lemma_features_concat(a, b);
    let ca = features_count(a) as int;
    if b.len() == 0 {
        assert(a + b =~= a);
        assert(labels.take(ca) =~= labels);
        assert(features_labelled(a, labels, drop) + Seq::empty() =~= features_labelled(a, labels, drop));
    } else {
        let bi = b.drop_last();
        let x = b.last();
        let cbi = features_count(bi) as int;
        assert(bi.push(x) =~= b);
        assert((a + bi).push(x) =~= a + b);
        lemma_features_concat(a, bi);
        let n = ca + cbi;
        lemma_features_push(a + bi, x, labels, drop);
        lemma_features_push(bi, x, labels.skip(ca), drop);
        law_features_split_join(a, bi, labels.take(n), drop);
        assert(labels.take(n).take(ca) =~= labels.take(ca));
        assert(labels.take(n).skip(ca) =~= labels.skip(ca).take(cbi));
        assert(labels.skip(n) =~= labels.skip(ca).skip(cbi));
        let left = features_labelled(a, labels.take(ca), drop);
        let mid = features_labelled(bi, labels.skip(ca).take(cbi), drop);
        let lx = feature_labelled(x, labels.skip(n), drop);
        assert((left + mid).push(lx) =~= left + mid.push(lx));
    }
}

} // verus!
