use vstd::prelude::*;
use crate::geometry::{Geometry, GeometryModel};
use crate::traverse::{has_unsupported, labelled, polygon_count, polygons_of};

verus! {

/// A feature: an optional geometry and the members that travel with it
/// (identifier, properties, bounding box, foreign members). `None` stands for
/// a feature without members of its own, as made around a bare geometry.
#[derive(Debug, PartialEq)]
pub struct Feature<P, M> {
    pub geometry: Option<Geometry<P, M>>,
    pub members: Option<M>,
}

/// A collection of features, in order, with the collection's own members.
#[derive(Debug, PartialEq)]
pub struct FeatureCollection<P, M> {
    pub features: Vec<Feature<P, M>>,
    pub members: Option<M>,
}

/// A whole document: one of the three shapes it can take at top level.
#[derive(Debug, PartialEq)]
pub enum GeoJson<P, M> {
    FeatureCollection(FeatureCollection<P, M>),
    Feature(Feature<P, M>),
    Geometry(Geometry<P, M>),
}

pub struct FeatureModel<P, M> {
    pub geometry: Option<GeometryModel<P, M>>,
    pub members: Option<M>,
}

pub struct CollectionModel<P, M> {
    pub features: Seq<FeatureModel<P, M>>,
    pub members: Option<M>,
}

pub enum GeoJsonModel<P, M> {
    FeatureCollection(CollectionModel<P, M>),
    Feature(FeatureModel<P, M>),
    Geometry(GeometryModel<P, M>),
}

impl<P, M> Feature<P, M> {
    pub open spec fn view(&self) -> FeatureModel<P, M> {
        FeatureModel {
            geometry: match self.geometry {
                Some(g) => Some(g@),
                None => None,
            },
            members: self.members,
        }
    }
}

/// The models of a sequence of features, element by element.
pub open spec fn feature_views<P, M>(fs: Seq<Feature<P, M>>) -> Seq<FeatureModel<P, M>> {
    fs.map_values(|f: Feature<P, M>| f@)
}

impl<P, M> FeatureCollection<P, M> {
    pub open spec fn view(&self) -> CollectionModel<P, M> {
        CollectionModel { features: feature_views(self.features@), members: self.members }
    }
}

impl<P, M> GeoJson<P, M> {
    pub open spec fn view(&self) -> GeoJsonModel<P, M> {
        match self {
            GeoJson::FeatureCollection(fc) => GeoJsonModel::FeatureCollection(fc@),
            GeoJson::Feature(f) => GeoJsonModel::Feature(f@),
            GeoJson::Geometry(g) => GeoJsonModel::Geometry(g@),
        }
    }
}

pub open spec fn feature_count<P, M>(f: FeatureModel<P, M>) -> nat {
    match f.geometry {
        Some(g) => polygon_count(g),
        None => 0,
    }
}

pub open spec fn features_count<P, M>(fs: Seq<FeatureModel<P, M>>) -> nat
    decreases fs.len(),
{
    if fs.len() == 0 {
        0
    } else {
        features_count(fs.drop_last()) + feature_count(fs.last())
    }
}

/// The number of polygons in a document: the total over its geometries.
pub open spec fn document_count<P, M>(d: GeoJsonModel<P, M>) -> nat {
    match d {
        GeoJsonModel::FeatureCollection(fc) => features_count(fc.features),
        GeoJsonModel::Feature(f) => feature_count(f),
        GeoJsonModel::Geometry(g) => polygon_count(g),
    }
}

pub open spec fn feature_polygons<P, M>(f: FeatureModel<P, M>) -> Seq<Seq<Seq<P>>> {
    match f.geometry {
        Some(g) => polygons_of(g),
        None => Seq::empty(),
    }
}

pub open spec fn features_polygons<P, M>(fs: Seq<FeatureModel<P, M>>) -> Seq<Seq<Seq<P>>>
    decreases fs.len(),
{
    if fs.len() == 0 {
        Seq::empty()
    } else {
        features_polygons(fs.drop_last()) + feature_polygons(fs.last())
    }
}

/// The ring sets of all polygons of a document, in traversal order.
pub open spec fn document_polygons<P, M>(d: GeoJsonModel<P, M>) -> Seq<Seq<Seq<P>>> {
    match d {
        GeoJsonModel::FeatureCollection(fc) => features_polygons(fc.features),
        GeoJsonModel::Feature(f) => feature_polygons(f),
        GeoJsonModel::Geometry(g) => polygons_of(g),
    }
}

pub open spec fn feature_unsupported<P, M>(f: FeatureModel<P, M>) -> bool {
    match f.geometry {
        Some(g) => has_unsupported(g),
        None => false,
    }
}

pub open spec fn features_unsupported<P, M>(fs: Seq<FeatureModel<P, M>>) -> bool
    decreases fs.len(),
{
    if fs.len() == 0 {
        false
    } else {
        features_unsupported(fs.drop_last()) || feature_unsupported(fs.last())
    }
}

/// Whether a geometry other than a polygon, a multipolygon or a collection
/// occurs anywhere in the document.
pub open spec fn document_unsupported<P, M>(d: GeoJsonModel<P, M>) -> bool {
    match d {
        GeoJsonModel::FeatureCollection(fc) => features_unsupported(fc.features),
        GeoJsonModel::Feature(f) => feature_unsupported(f),
        GeoJsonModel::Geometry(g) => has_unsupported(g),
    }
}

/// The feature with its geometry labelled, if it has one; its members kept.
pub open spec fn feature_labelled<P, M>(f: FeatureModel<P, M>, labels: Seq<P>, drop: bool) -> FeatureModel<P, M> {
    FeatureModel {
        geometry: match f.geometry {
            Some(g) => Some(labelled(g, labels, drop)),
            None => None,
        },
        members: f.members,
    }
}

pub open spec fn features_labelled<P, M>(fs: Seq<FeatureModel<P, M>>, labels: Seq<P>, drop: bool) -> Seq<FeatureModel<P, M>>
    decreases fs.len(),
{
    if fs.len() == 0 {
        Seq::empty()
    } else {
        let n = features_count(fs.drop_last()) as int;
        features_labelled(fs.drop_last(), labels.take(n), drop).push(
            feature_labelled(fs.last(), labels.skip(n), drop),
        )
    }
}

/// The document with every polygon labelled, `labels` holding the labels of
/// `document_polygons(d)` in order; its shape and all members are kept.
pub open spec fn document_labelled<P, M>(d: GeoJsonModel<P, M>, labels: Seq<P>, drop: bool) -> GeoJsonModel<P, M> {
    match d {
        GeoJsonModel::FeatureCollection(fc) => GeoJsonModel::FeatureCollection(
            CollectionModel { features: features_labelled(fc.features, labels, drop), members: fc.members },
        ),
        GeoJsonModel::Feature(f) => GeoJsonModel::Feature(feature_labelled(f, labels, drop)),
        GeoJsonModel::Geometry(g) => GeoJsonModel::Geometry(labelled(g, labels, drop)),
    }
}

/// The document as a collection: a collection as it is, a feature as the
/// only feature of a collection, a geometry as the geometry of the only
/// feature, the new feature and collection having no members of their own.
pub open spec fn as_collection<P, M>(d: GeoJsonModel<P, M>) -> CollectionModel<P, M> {
    match d {
        GeoJsonModel::FeatureCollection(fc) => fc,
        GeoJsonModel::Feature(f) => CollectionModel { features: seq![f], members: None },
        GeoJsonModel::Geometry(g) => CollectionModel {
            features: seq![FeatureModel { geometry: Some(g), members: None }],
            members: None,
        },
    }
}

/// Turns any document into a feature collection.
pub fn build_featurecollection<P, M>(gj: GeoJson<P, M>) -> (r: FeatureCollection<P, M>)
    ensures
        r@ == as_collection(gj@),
{
    match gj {
        GeoJson::FeatureCollection(fc) => fc,
        GeoJson::Feature(f) => {
            let mut features: Vec<Feature<P, M>> = Vec::new();
            features.push(f);
            proof {
                assert(feature_views(features@) =~= seq![f@]);
            }
            FeatureCollection { features, members: None }
        },
        GeoJson::Geometry(g) => {
            let mut features: Vec<Feature<P, M>> = Vec::new();
            let f = Feature { geometry: Some(g), members: None };
            features.push(f);
            proof {
                assert(feature_views(features@) =~= seq![f@]);
            }
            FeatureCollection { features, members: None }
        },
    }
}

pub proof fn lemma_features_push<P, M>(fs: Seq<FeatureModel<P, M>>, f: FeatureModel<P, M>, labels: Seq<P>, drop: bool)
    ensures
        features_count(fs.push(f)) == features_count(fs) + feature_count(f),
        features_polygons(fs.push(f)) == features_polygons(fs) + feature_polygons(f),
        features_unsupported(fs.push(f)) == (features_unsupported(fs) || feature_unsupported(f)),
        features_labelled(fs.push(f), labels, drop) == features_labelled(
            fs,
            labels.take(features_count(fs) as int),
            drop,
        ).push(feature_labelled(f, labels.skip(features_count(fs) as int), drop)),
{
    assert(fs.push(f).drop_last() =~= fs);
}

/// Counting the features of a concatenation adds the counts of its parts.
pub proof fn lemma_features_concat<P, M>(a: Seq<FeatureModel<P, M>>, b: Seq<FeatureModel<P, M>>)
    ensures
        features_count(a + b) == features_count(a) + features_count(b),
        features_polygons(a + b) == features_polygons(a) + features_polygons(b),
        features_unsupported(a + b) == (features_unsupported(a) || features_unsupported(b)),
    decreases b.len(),
{
    if b.len() == 0 {
        assert(a + b =~= a);
        assert(features_polygons(a) + features_polygons(b) =~= features_polygons(a));
    } else {
        let bi = b.drop_last();
        lemma_features_concat(a, bi);
        assert((a + b).drop_last() =~= a + bi);
        assert((a + b).last() == b.last());
        assert(features_polygons(a + bi) + feature_polygons(b.last()) =~= features_polygons(a) + (
        features_polygons(bi) + feature_polygons(b.last())));
    }
}

pub proof fn lemma_features_prefix<P, M>(fs: Seq<FeatureModel<P, M>>, i: int, labels: Seq<P>, drop: bool)
    requires
        0 <= i < fs.len(),
    ensures
        fs.take(i + 1) == fs.take(i).push(fs[i]),
        features_count(fs.take(i)) + feature_count(fs[i]) == features_count(fs.take(i + 1)),
        features_count(fs.take(i + 1)) <= features_count(fs),
        features_polygons(fs.take(i + 1)) == features_polygons(fs.take(i)) + feature_polygons(fs[i]),
        features_unsupported(fs.take(i + 1)) == (features_unsupported(fs.take(i)) || feature_unsupported(fs[i])),
        features_unsupported(fs.take(i + 1)) ==> features_unsupported(fs),
        features_labelled(fs.take(i + 1), labels, drop) == features_labelled(
            fs.take(i),
            labels.take(features_count(fs.take(i)) as int),
            drop,
        ).push(feature_labelled(fs[i], labels.skip(features_count(fs.take(i)) as int), drop)),
{
    assert(fs.take(i + 1) =~= fs.take(i).push(fs[i]));
    lemma_features_push(fs.take(i), fs[i], labels, drop);
    assert(fs =~= fs.take(i + 1) + fs.skip(i + 1));
    lemma_features_concat(fs.take(i + 1), fs.skip(i + 1));
}

} // verus!
