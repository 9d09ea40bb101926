use geo_types::{Coord, LineString, Polygon};
use geolabel::dispatch::{
    check_policy, count_document, document_has_unsupported, polygons, process_geojson,
    LabelError, Policy,
};
use geolabel::document::{build_featurecollection, Feature, FeatureCollection, GeoJson};
use geolabel::engine::{contains_unsupported, count_polygons};
use geolabel::geometry::{classify, Geometry, Kind, Value};
use polylabel::polylabel;

type Pos = Vec<f64>;
type Geom = Geometry<Pos, String>;

fn pos(x: f64, y: f64) -> Pos {
    vec![x, y]
}

fn geom(value: Value<Pos, String>) -> Geom {
    Geometry { value, members: String::new() }
}

fn point(x: f64, y: f64) -> Geom {
    geom(Value::Point(pos(x, y)))
}

fn square(x: f64, y: f64, side: f64) -> Vec<Vec<Pos>> {
    vec![vec![
        pos(x, y),
        pos(x + side, y),
        pos(x + side, y + side),
        pos(x, y + side),
        pos(x, y),
    ]]
}

fn polygon(x: f64, y: f64, side: f64) -> Geom {
    geom(Value::Polygon(square(x, y, side)))
}

fn collection(children: Vec<Geom>) -> Geom {
    geom(Value::GeometryCollection(children))
}

fn feature(geometry: Option<Geom>, members: &str) -> Feature<Pos, String> {
    Feature { geometry, members: Some(members.to_string()) }
}

fn to_geo(rings: &Vec<Vec<Pos>>) -> Polygon<f64> {
    let mut lines: Vec<LineString<f64>> = rings
        .iter()
        .map(|r| LineString::new(r.iter().map(|p| Coord { x: p[0], y: p[1] }).collect()))
        .collect();
    let exterior = lines.remove(0);
    Polygon::new(exterior, lines)
}

fn pole_labels(gj: &GeoJson<Pos, String>, tolerance: f64) -> Vec<Pos> {
    polygons(gj)
        .into_iter()
        .map(|rings| {
            let p = polylabel(&to_geo(rings), &tolerance).unwrap();
            pos(p.x(), p.y())
        })
        .collect()
}

#[test]
fn test_nested_geometrycollection() {
    let build = || {
        GeoJson::FeatureCollection(FeatureCollection {
            features: vec![Feature {
                geometry: Some(collection(vec![
                    point(2.8125, -4.0625),
                    geom(Value::MultiPoint(vec![pos(4.375, -6.125), pos(6.890625, -8.015625)])),
                    collection(vec![point(-3.248626708984375, -4.188140869140625)]),
                ])),
                members: None,
            }],
            members: None,
        })
    };
    let gj = build();
    assert_eq!(count_document(&gj), Some(0));
    let labels = pole_labels(&gj, 0.001);
    let gj = process_geojson(gj, labels, Policy::Keep).unwrap();
    let gj = build_featurecollection(gj);
    let correct = match build() {
        GeoJson::FeatureCollection(fc) => fc,
        _ => unreachable!(),
    };
    assert_eq!(gj, correct);
}

#[test]
fn square_polygon_labels_near_its_centre() {
    let gj = GeoJson::Geometry(polygon(0.0, 0.0, 4.0));
    assert_eq!(count_document(&gj), Some(1));
    let labels = pole_labels(&gj, 0.1);
    let out = process_geojson(gj, labels, Policy::Keep).unwrap();
    match out {
        GeoJson::Geometry(Geometry { value: Value::Point(p), .. }) => {
            let d = ((p[0] - 2.0).powi(2) + (p[1] - 2.0).powi(2)).sqrt();
            assert!(d <= 0.1, "label {:?} too far from the centre", p);
        }
        other => panic!("expected a point, got {:?}", other),
    }
}

#[test]
fn empty_feature_collection_stays_empty() {
    let gj: GeoJson<Pos, String> =
        GeoJson::FeatureCollection(FeatureCollection { features: vec![], members: None });
    assert_eq!(count_document(&gj), Some(0));
    assert!(polygons(&gj).is_empty());
    let out = process_geojson(gj, vec![], Policy::Keep).unwrap();
    let fc = build_featurecollection(out);
    assert_eq!(fc, FeatureCollection { features: vec![], members: None });
}

#[test]
fn multipolygon_becomes_multipoint_in_order() {
    let mp = geom(Value::MultiPolygon(vec![
        square(0.0, 0.0, 1.0),
        square(10.0, 0.0, 1.0),
        square(20.0, 0.0, 1.0),
    ]));
    let gj = GeoJson::Geometry(mp);
    assert_eq!(count_document(&gj), Some(3));
    let rings = polygons(&gj);
    assert_eq!(rings.len(), 3);
    assert_eq!(rings[1][0][0], pos(10.0, 0.0));
    let labels = vec![pos(0.5, 0.5), pos(10.5, 0.5), pos(20.5, 0.5)];
    let out = process_geojson(gj, labels.clone(), Policy::Keep).unwrap();
    assert_eq!(out, GeoJson::Geometry(geom(Value::MultiPoint(labels))));
}

#[test]
fn counter_sums_through_nesting() {
    let gj = GeoJson::FeatureCollection(FeatureCollection {
        features: vec![
            feature(Some(polygon(0.0, 0.0, 1.0)), "a"),
            feature(
                Some(collection(vec![
                    geom(Value::MultiPolygon(vec![square(0.0, 0.0, 1.0), square(5.0, 5.0, 1.0)])),
                    collection(vec![polygon(7.0, 7.0, 2.0), point(1.0, 1.0)]),
                ])),
                "b",
            ),
            feature(None, "c"),
        ],
        members: None,
    });
    assert_eq!(count_document(&gj), Some(4));
    let rings = polygons(&gj);
    assert_eq!(rings.len(), 4);
    assert_eq!(rings[0][0][0], pos(0.0, 0.0));
    assert_eq!(rings[2][0][0], pos(5.0, 5.0));
    assert_eq!(rings[3][0][0], pos(7.0, 7.0));
}

#[test]
fn features_keep_order_and_members() {
    let gj = GeoJson::FeatureCollection(FeatureCollection {
        features: vec![
            feature(Some(polygon(0.0, 0.0, 2.0)), "first"),
            feature(None, "second"),
            feature(Some(point(3.0, 3.0)), "third"),
            feature(Some(polygon(4.0, 4.0, 2.0)), "fourth"),
        ],
        members: Some("collection".to_string()),
    });
    let out = process_geojson(gj, vec![pos(1.0, 1.0), pos(5.0, 5.0)], Policy::Keep).unwrap();
    let expected = GeoJson::FeatureCollection(FeatureCollection {
        features: vec![
            feature(Some(point(1.0, 1.0)), "first"),
            feature(None, "second"),
            feature(Some(point(3.0, 3.0)), "third"),
            feature(Some(point(5.0, 5.0)), "fourth"),
        ],
        members: Some("collection".to_string()),
    });
    assert_eq!(out, expected);
}

#[test]
fn strict_policy_refuses_unsupported_anywhere() {
    let gj = GeoJson::Feature(feature(
        Some(collection(vec![
            polygon(0.0, 0.0, 1.0),
            collection(vec![geom(Value::LineString(vec![pos(0.0, 0.0), pos(1.0, 1.0)]))]),
        ])),
        "f",
    ));
    assert!(document_has_unsupported(&gj));
    assert_eq!(check_policy(&gj, Policy::Abort), Err(LabelError::UnsupportedGeometry));
    assert_eq!(check_policy(&gj, Policy::Keep), Ok(()));
    let r = process_geojson(gj, vec![pos(0.5, 0.5)], Policy::Abort);
    assert_eq!(r, Err(LabelError::UnsupportedGeometry));
}

#[test]
fn strict_policy_accepts_polygons_only() {
    let gj = GeoJson::Geometry(collection(vec![
        polygon(0.0, 0.0, 1.0),
        collection(vec![geom(Value::MultiPolygon(vec![square(2.0, 2.0, 1.0)]))]),
    ]));
    assert!(!document_has_unsupported(&gj));
    let out = process_geojson(gj, vec![pos(0.5, 0.5), pos(2.5, 2.5)], Policy::Abort).unwrap();
    let expected = GeoJson::Geometry(collection(vec![
        point(0.5, 0.5),
        collection(vec![geom(Value::MultiPoint(vec![pos(2.5, 2.5)]))]),
    ]));
    assert_eq!(out, expected);
}

#[test]
fn nested_collections_collapse_only_polygons() {
    let gj = GeoJson::Geometry(collection(vec![
        point(9.0, 9.0),
        polygon(0.0, 0.0, 2.0),
        collection(vec![point(8.0, 8.0), polygon(4.0, 4.0, 2.0)]),
    ]));
    let out = process_geojson(gj, vec![pos(1.0, 1.0), pos(5.0, 5.0)], Policy::Keep).unwrap();
    let expected = GeoJson::Geometry(collection(vec![
        point(9.0, 9.0),
        point(1.0, 1.0),
        collection(vec![point(8.0, 8.0), point(5.0, 5.0)]),
    ]));
    assert_eq!(out, expected);
}

#[test]
fn drop_policy_leaves_unsupported_children_out() {
    let gj = GeoJson::Geometry(collection(vec![
        point(9.0, 9.0),
        polygon(0.0, 0.0, 2.0),
        collection(vec![
            geom(Value::MultiLineString(vec![vec![pos(0.0, 0.0), pos(1.0, 0.0)]])),
            polygon(4.0, 4.0, 2.0),
        ]),
    ]));
    let out = process_geojson(gj, vec![pos(1.0, 1.0), pos(5.0, 5.0)], Policy::Drop).unwrap();
    let expected = GeoJson::Geometry(collection(vec![
        point(1.0, 1.0),
        collection(vec![point(5.0, 5.0)]),
    ]));
    assert_eq!(out, expected);
}

#[test]
fn drop_policy_keeps_a_bare_unsupported_geometry() {
    let gj = GeoJson::Feature(feature(Some(point(1.0, 2.0)), "f"));
    let out = process_geojson(gj, vec![], Policy::Drop).unwrap();
    assert_eq!(out, GeoJson::Feature(feature(Some(point(1.0, 2.0)), "f")));
}

#[test]
fn wrong_number_of_labels_is_refused() {
    let gj = GeoJson::Geometry(polygon(0.0, 0.0, 1.0));
    assert_eq!(process_geojson(gj, vec![], Policy::Keep), Err(LabelError::LabelCount));
    let gj = GeoJson::Geometry(polygon(0.0, 0.0, 1.0));
    let r = process_geojson(gj, vec![pos(0.5, 0.5), pos(0.6, 0.6)], Policy::Keep);
    assert_eq!(r, Err(LabelError::LabelCount));
}

#[test]
fn repeated_runs_give_identical_output() {
    let build = || {
        GeoJson::FeatureCollection(FeatureCollection {
            features: vec![
                feature(Some(polygon(0.0, 0.0, 4.0)), "a"),
                feature(
                    Some(geom(Value::MultiPolygon(vec![
                        square(10.0, 10.0, 3.0),
                        square(20.0, 0.0, 6.0),
                    ]))),
                    "b",
                ),
            ],
            members: None,
        })
    };
    let first = {
        let gj = build();
        let labels = pole_labels(&gj, 0.01);
        process_geojson(gj, labels, Policy::Keep).unwrap()
    };
    let second = {
        let gj = build();
        let labels = pole_labels(&gj, 0.01);
        process_geojson(gj, labels, Policy::Keep).unwrap()
    };
    assert_eq!(first, second);
    assert_eq!(count_document(&build()), Some(3));
}

#[test]
fn feature_becomes_a_one_feature_collection() {
    let f = feature(Some(point(1.0, 1.0)), "only");
    let fc = build_featurecollection(GeoJson::Feature(f));
    assert_eq!(
        fc,
        FeatureCollection { features: vec![feature(Some(point(1.0, 1.0)), "only")], members: None }
    );
}

#[test]
fn geometry_becomes_a_feature_without_members() {
    let fc = build_featurecollection(GeoJson::Geometry(point(1.0, 1.0)));
    assert_eq!(
        fc,
        FeatureCollection {
            features: vec![Feature { geometry: Some(point(1.0, 1.0)), members: None }],
            members: None,
        }
    );
}

#[test]
fn classify_tells_the_kinds_apart() {
    assert_eq!(classify(&polygon(0.0, 0.0, 1.0).value), Kind::Polygon);
    assert_eq!(classify(&Value::<Pos, String>::MultiPolygon(vec![])), Kind::MultiPolygon);
    assert_eq!(classify(&collection(vec![]).value), Kind::Collection);
    assert_eq!(classify(&point(0.0, 0.0).value), Kind::Unsupported);
    assert_eq!(classify(&Value::<Pos, String>::LineString(vec![])), Kind::Unsupported);
}

#[test]
fn geometry_counts_and_checks() {
    let g = collection(vec![
        polygon(0.0, 0.0, 1.0),
        geom(Value::MultiPolygon(vec![square(0.0, 0.0, 1.0), square(1.0, 1.0, 1.0)])),
    ]);
    assert_eq!(count_polygons(&g), Some(3));
    assert!(!contains_unsupported(&g));
    let h = collection(vec![collection(vec![geom(Value::MultiPoint(vec![]))])]);
    assert_eq!(count_polygons(&h), Some(0));
    assert!(contains_unsupported(&h));
}

#[test]
fn labelling_in_parts_matches_labelling_whole() {
    let fa = || feature(Some(polygon(0.0, 0.0, 2.0)), "a");
    let fb = || feature(Some(geom(Value::MultiPolygon(vec![square(3.0, 3.0, 1.0), square(6.0, 6.0, 1.0)]))), "b");
    let fc = || feature(Some(collection(vec![point(1.0, 1.0), polygon(9.0, 9.0, 2.0)])), "c");
    let labels = vec![pos(1.0, 1.0), pos(3.5, 3.5), pos(6.5, 6.5), pos(10.0, 10.0)];
    let whole = GeoJson::FeatureCollection(FeatureCollection { features: vec![fa(), fb(), fc()], members: None });
    let left = GeoJson::FeatureCollection(FeatureCollection { features: vec![fa()], members: None });
    let right = GeoJson::FeatureCollection(FeatureCollection { features: vec![fb(), fc()], members: None });
    assert_eq!(count_document(&whole), Some(4));
    assert_eq!(count_document(&left).unwrap() + count_document(&right).unwrap(), 4);
    let whole = build_featurecollection(process_geojson(whole, labels.clone(), Policy::Keep).unwrap());
    let left = build_featurecollection(process_geojson(left, labels[..1].to_vec(), Policy::Keep).unwrap());
    let right = build_featurecollection(process_geojson(right, labels[1..].to_vec(), Policy::Keep).unwrap());
    let mut joined = left.features;
    joined.extend(right.features);
    assert_eq!(whole.features, joined);
}
