use vstd::prelude::*;

verus! {

broadcast use vstd::std_specs::vec::axiom_vec_index_decreases;

/// The coordinates of one polygon: its exterior ring followed by its holes.
pub type Rings<P> = Vec<Vec<P>>;

/// The body of a geometry, generic over the position type `P` and over the
/// side members `M` (bounding box, foreign members) that each geometry carries.
#[derive(Debug, PartialEq)]
pub enum Value<P, M> {
    Point(P),
    MultiPoint(Vec<P>),
    LineString(Vec<P>),
    MultiLineString(Vec<Vec<P>>),
    Polygon(Rings<P>),
    MultiPolygon(Vec<Rings<P>>),
    GeometryCollection(Vec<Geometry<P, M>>),
}

/// A geometry node: its body and the members that travel with it unchanged.
#[derive(Debug, PartialEq)]
pub struct Geometry<P, M> {
    pub value: Value<P, M>,
    pub members: M,
}

/// The mathematical model of a `Value`.
pub enum ValueModel<P, M> {
    Point(P),
    MultiPoint(Seq<P>),
    LineString(Seq<P>),
    MultiLineString(Seq<Seq<P>>),
    Polygon(Seq<Seq<P>>),
    MultiPolygon(Seq<Seq<Seq<P>>>),
    GeometryCollection(Seq<GeometryModel<P, M>>),
}

/// The mathematical model of a `Geometry`.
pub struct GeometryModel<P, M> {
    pub value: ValueModel<P, M>,
    pub members: M,
}

/// How a geometry node is treated by the labelling traversal.
#[derive(PartialEq, Eq, Structural, Clone, Copy, Debug)]
pub enum Kind {
    Polygon,
    MultiPolygon,
    Collection,
    Unsupported,
}

pub open spec fn rings_view<P>(rs: Seq<Vec<P>>) -> Seq<Seq<P>> {
    rs.map_values(|r: Vec<P>| r@)
}

pub open spec fn polygons_view<P>(ps: Seq<Rings<P>>) -> Seq<Seq<Seq<P>>> {
    ps.map_values(|p: Rings<P>| rings_view(p@))
}

/// The models of a sequence of geometries, element by element.
pub open spec fn views<P, M>(gs: Seq<Geometry<P, M>>) -> Seq<GeometryModel<P, M>> {
    gs.map_values(|g: Geometry<P, M>| g@)
}

impl<P, M> Value<P, M> {
    pub open spec fn view(&self) -> ValueModel<P, M>
        decreases self,
    {
        match self {
            Value::Point(p) => ValueModel::Point(*p),
            Value::MultiPoint(ps) => ValueModel::MultiPoint(ps@),
            Value::LineString(ps) => ValueModel::LineString(ps@),
            Value::MultiLineString(ls) => ValueModel::MultiLineString(rings_view(ls@)),
            Value::Polygon(rs) => ValueModel::Polygon(rings_view(rs@)),
            Value::MultiPolygon(ps) => ValueModel::MultiPolygon(polygons_view(ps@)),
            Value::GeometryCollection(gs) => ValueModel::GeometryCollection(
                Seq::new(
                    gs.len() as nat,
                    |i: int|
                        if 0 <= i < gs.len() {
                            gs[i].view()
                        } else {
                            arbitrary()
                        },
                ),
            ),
        }
    }
}

impl<P, M> Geometry<P, M> {
    pub open spec fn view(&self) -> GeometryModel<P, M>
        decreases self,
    {
        GeometryModel { value: self.value.view(), members: self.members }
    }
}

/// The models of the children of a collection are the models of its elements.
pub proof fn lemma_collection_view<P, M>(gs: Vec<Geometry<P, M>>)
    ensures
        Value::<P, M>::GeometryCollection(gs)@ == ValueModel::GeometryCollection(views(gs@)),
{
    let v = Value::<P, M>::GeometryCollection(gs);
    assert(v@->GeometryCollection_0 =~= views(gs@));
}

pub open spec fn kind_of<P, M>(v: ValueModel<P, M>) -> Kind {
    match v {
        ValueModel::Polygon(_) => Kind::Polygon,
        ValueModel::MultiPolygon(_) => Kind::MultiPolygon,
        ValueModel::GeometryCollection(_) => Kind::Collection,
        _ => Kind::Unsupported,
    }
}

/// Tells whether a node is labelled, recursed into, or left to the policy on
/// other geometries.
pub fn classify<P, M>(v: &Value<P, M>) -> (k: Kind)
    ensures
        k == kind_of(v@),
{
    match v {
        Value::Polygon(_) => Kind::Polygon,
        Value::MultiPolygon(_) => Kind::MultiPolygon,
        Value::GeometryCollection(_) => Kind::Collection,
        _ => Kind::Unsupported,
    }
}

} // verus!
