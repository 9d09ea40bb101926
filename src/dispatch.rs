use vstd::prelude::*;
use std::collections::VecDeque;
use crate::document::{
    Feature, FeatureCollection, FeatureModel, GeoJson, GeoJsonModel, feature_views, feature_count,
    features_count, document_count, feature_polygons, features_polygons, document_polygons,
    feature_unsupported, features_unsupported, document_unsupported, feature_labelled,
    features_labelled, document_labelled, lemma_features_prefix,
};
use crate::engine::{
    count_polygons, contains_unsupported, collect_polygons, label_geometry, ring_sets,
};
use crate::geometry::Rings;
use crate::traverse::lemma_polygons_len;

verus! {

/// What becomes of points, multipoints, line strings and multiline strings.
#[derive(PartialEq, Eq, Structural, Clone, Copy, Debug)]
pub enum Policy {
    /// They stay where they are, unchanged.
    Keep,
    /// They are left out of the geometry collections that hold them; where
    /// one is the whole geometry of a feature or document it stays.
    Drop,
    /// The run fails if one occurs anywhere.
    Abort,
}

#[derive(PartialEq, Eq, Structural, Clone, Copy, Debug)]
pub enum LabelError {
    /// The policy is `Abort` and the document holds a geometry other than a
    /// polygon, a multipolygon or a collection.
    UnsupportedGeometry,
    /// The number of labels differs from the number of polygons.
    LabelCount,
}

/// The number of polygons in a feature, or `None` where it does not fit.
pub fn count_feature<P, M>(f: &Feature<P, M>) -> (r: Option<usize>)
    ensures
        match r {
            Some(n) => n == feature_count(f@),
            None => feature_count(f@) > usize::MAX,
        },
{
    match &f.geometry {
        Some(g) => count_polygons(g),
        None => Some(0),
    }
}

/// The number of polygons in a document: one for each polygon and `k` for
/// each multipolygon of `k` polygons, through every level of nesting, or
/// `None` where that number does not fit in a `usize`.
pub fn count_document<P, M>(gj: &GeoJson<P, M>) -> (r: Option<usize>)
    ensures
        match r {
            Some(n) => n == document_count(gj@),
            None => document_count(gj@) > usize::MAX,
        },
{
    match gj {
        GeoJson::FeatureCollection(fc) => {
            let fs = &fc.features;
            let ghost all = feature_views(fs@);
            let mut total: usize = 0;
            let mut i: usize = 0;
            while i < fs.len()
                invariant
                    i <= fs@.len(),
                    all == feature_views(fs@),
                    total == features_count(all.take(i as int)),
                    document_count(gj@) == features_count(all),
                decreases fs@.len() - i,
            {
                proof {
                    lemma_features_prefix(all, i as int, Seq::empty(), false);
                }
                let n = match count_feature(&fs[i]) {
                    Some(n) => n,
                    None => return None,
                };
                total = match total.checked_add(n) {
                    Some(t) => t,
                    None => return None,
                };
                i = i + 1;
            }
            proof {
                assert(all.take(i as int) =~= all);
            }
            Some(total)
        },
        GeoJson::Feature(f) => count_feature(f),
        GeoJson::Geometry(g) => count_polygons(g),
    }
}

fn feature_has_unsupported<P, M>(f: &Feature<P, M>) -> (r: bool)
    ensures
        r == feature_unsupported(f@),
{
    match &f.geometry {
        Some(g) => contains_unsupported(g),
        None => false,
    }
}

/// Whether a point, multipoint, line string or multiline string occurs
/// anywhere in the document.
pub fn document_has_unsupported<P, M>(gj: &GeoJson<P, M>) -> (r: bool)
    ensures
        r == document_unsupported(gj@),
{
    match gj {
        GeoJson::FeatureCollection(fc) => {
            let fs = &fc.features;
            let ghost all = feature_views(fs@);
            let mut i: usize = 0;
            while i < fs.len()
                invariant
                    i <= fs@.len(),
                    all == feature_views(fs@),
                    !features_unsupported(all.take(i as int)),
                    document_unsupported(gj@) == features_unsupported(all),
                decreases fs@.len() - i,
            {
                proof {
                    lemma_features_prefix(all, i as int, Seq::empty(), false);
                }
                if feature_has_unsupported(&fs[i]) {
                    return true;
                }
                i = i + 1;
            }
            proof {
                assert(all.take(i as int) =~= all);
            }
            false
        },
        GeoJson::Feature(f) => feature_has_unsupported(f),
        GeoJson::Geometry(g) => contains_unsupported(g),
    }
}

/// The rings of every polygon of the document, in traversal order: the
/// inputs of the pole finder, one for each label that `process_geojson`
/// takes.
pub fn polygons<'a, P, M>(gj: &'a GeoJson<P, M>) -> (r: Vec<&'a Rings<P>>)
    ensures
        ring_sets(r@) == document_polygons(gj@),
        r@.len() == document_count(gj@),
{
    let mut out: Vec<&'a Rings<P>> = Vec::new();
    proof {
        assert(ring_sets(out@) =~= Seq::empty());
    }
    match gj {
        GeoJson::FeatureCollection(fc) => {
            let fs = &fc.features;
            let ghost all = feature_views(fs@);
            let mut i: usize = 0;
            while i < fs.len()
                invariant
                    i <= fs@.len(),
                    all == feature_views(fs@),
                    ring_sets(out@) == features_polygons(all.take(i as int)),
                decreases fs@.len() - i,
            {
                proof {
                    lemma_features_prefix(all, i as int, Seq::empty(), false);
                }
                if let Some(g) = &fs[i].geometry {
                    collect_polygons(g, &mut out);
                } else {
                    proof {
                        assert(ring_sets(out@) =~= ring_sets(out@) + feature_polygons(all[i as int]));
                    }
                }
                i = i + 1;
            }
            proof {
                assert(all.take(i as int) =~= all);
            }
        },
        GeoJson::Feature(f) => {
            if let Some(g) = &f.geometry {
                collect_polygons(g, &mut out);
            }
        },
        GeoJson::Geometry(g) => {
            collect_polygons(g, &mut out);
        },
    }
    proof {
        lemma_document_polygons_len(gj@);
    }
    out
}

/// There are as many ring sets in a document as polygons.
pub proof fn lemma_document_polygons_len<P, M>(d: GeoJsonModel<P, M>)
    ensures
        document_polygons(d).len() == document_count(d),
{
    match d {
        GeoJsonModel::FeatureCollection(fc) => {
            lemma_features_polygons_len(fc.features);
        },
        GeoJsonModel::Feature(f) => {
            if let Some(g) = f.geometry {
                lemma_polygons_len(g);
            }
        },
        GeoJsonModel::Geometry(g) => {
            lemma_polygons_len(g);
        },
    }
}

proof fn lemma_features_polygons_len<P, M>(fs: Seq<FeatureModel<P, M>>)
    ensures
        features_polygons(fs).len() == features_count(fs),
    decreases fs.len(),
{
    if fs.len() > 0 {
        lemma_features_polygons_len(fs.drop_last());
        if let Some(g) = fs.last().geometry {
            lemma_polygons_len(g);
        }
    }
}

/// Whether the policy refuses the document: `Abort` with a point, multipoint,
/// line string or multiline string anywhere in it.
pub open spec fn refused<P, M>(d: GeoJsonModel<P, M>, policy: Policy) -> bool {
    policy == Policy::Abort && document_unsupported(d)
}

/// Fails where the policy refuses the document, before any label is made.
pub fn check_policy<P, M>(gj: &GeoJson<P, M>, policy: Policy) -> (r: Result<(), LabelError>)
    ensures
        r is Err <==> refused(gj@, policy),
        r is Err ==> r == Err::<(), LabelError>(LabelError::UnsupportedGeometry),
{
    if policy == Policy::Abort && document_has_unsupported(gj) {
        Err(LabelError::UnsupportedGeometry)
    } else {
        Ok(())
    }
}

fn label_feature<P, M>(f: Feature<P, M>, labels: &mut VecDeque<P>, drop: bool) -> (r: Feature<P, M>)
    requires
        feature_count(f@) <= old(labels)@.len(),
    ensures
        r@ == feature_labelled(f@, old(labels)@.take(feature_count(f@) as int), drop),
        final(labels)@ == old(labels)@.skip(feature_count(f@) as int),
{
    let Feature { geometry, members } = f;
    let geometry = match geometry {
        Some(g) => Some(label_geometry(g, labels, drop)),
        None => {
            proof {
                assert(labels@.skip(0) =~= labels@);
            }
            None
        },
    };
    Feature { geometry, members }
}

fn label_features<P, M>(fs: Vec<Feature<P, M>>, labels: &mut VecDeque<P>, drop: bool) -> (r: Vec<Feature<P, M>>)
    requires
        features_count(feature_views(fs@)) <= old(labels)@.len(),
    ensures
        feature_views(r@) == features_labelled(
            feature_views(fs@),
            old(labels)@.take(features_count(feature_views(fs@)) as int),
            drop,
        ),
        final(labels)@ == old(labels)@.skip(features_count(feature_views(fs@)) as int),
{
    let ghost all = feature_views(fs@);
    let ghost start = labels@;
    let ghost src = fs;
    let mut out: Vec<Feature<P, M>> = Vec::new();
    for f in it: fs.into_iter()
        invariant
            it.seq() == src@,
            all == feature_views(src@),
            features_count(all) <= start.len(),
            feature_views(out@) == features_labelled(
                all.take(it.index() as int),
                start.take(features_count(all.take(it.index() as int)) as int),
                drop,
            ),
            labels@ == start.skip(features_count(all.take(it.index() as int)) as int),
    {
        let ghost k = it.index() as int;
        let ghost before = features_count(all.take(k)) as int;
        let ghost c = feature_count(f@) as int;
        proof {
            lemma_features_prefix(all, k, start.take(before + c), drop);
            assert(start.take(before + c).take(before) =~= start.take(before));
            assert(start.take(before + c).skip(before) =~= start.skip(before).take(c));
            assert(start.skip(before).skip(c) =~= start.skip(before + c));
        }
        let ghost prev = out@;
        let r = label_feature(f, labels, drop);
        out.push(r);
        proof {
            assert(feature_views(out@) =~= feature_views(prev).push(r@));
        }
    }
    proof {
        assert(all.take(all.len() as int) =~= all);
    }
    out
}

/// Replaces every polygon of the document by its label point and every
/// multipolygon by the multipoint of its labels, `labels` holding one label
/// for each polygon in the order of `polygons`. Features keep their order
/// and members; other geometries are kept, dropped from their collections,
/// or refuse the whole document, as `policy` says.
pub fn process_geojson<P, M>(gj: GeoJson<P, M>, labels: Vec<P>, policy: Policy) -> (r: Result<GeoJson<P, M>, LabelError>)
    ensures
        match r {
            Ok(out) => {
                &&& !refused(gj@, policy)
                &&& labels@.len() == document_count(gj@)
                &&& out@ == document_labelled(gj@, labels@, policy == Policy::Drop)
            },
            Err(LabelError::UnsupportedGeometry) => refused(gj@, policy),
            Err(LabelError::LabelCount) => {
                &&& !refused(gj@, policy)
                &&& labels@.len() != document_count(gj@)
            },
        },
{
    if let Err(e) = check_policy(&gj, policy) {
        return Err(e);
    }
    let supplied = labels.len();
    match count_document(&gj) {
        Some(n) if n == supplied => {},
        _ => {
            return Err(LabelError::LabelCount);
        },
    }
    let drop = policy == Policy::Drop;
    let ghost given = labels@;
    let mut queue: VecDeque<P> = VecDeque::new();
    for x in it: labels.into_iter()
        invariant
            it.seq() == given,
            queue@ == given.take(it.index() as int),
    {
        queue.push_back(x);
        proof {
            assert(queue@ =~= given.take(it.index() + 1));
        }
    }
    proof {
        assert(queue@ =~= given);
        assert(given.take(given.len() as int) =~= given);
    }
    let out = match gj {
        GeoJson::FeatureCollection(fc) => {
            let FeatureCollection { features, members } = fc;
            let features = label_features(features, &mut queue, drop);
            GeoJson::FeatureCollection(FeatureCollection { features, members })
        },
        GeoJson::Feature(f) => GeoJson::Feature(label_feature(f, &mut queue, drop)),
        GeoJson::Geometry(g) => GeoJson::Geometry(label_geometry(g, &mut queue, drop)),
    };
    Ok(out)
}

} // verus!
