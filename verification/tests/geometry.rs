use shp2geojson::error::AppError;
use shp2geojson::features::{
    build_feature, CloseFailure, Feature, FeatureStream, StreamError, StreamEvent, StreamFiles,
    StreamState, WriteFailure,
};
use shp2geojson::geometry::{
    finite, geometry_error, group_rings, polygons_to_value, shape_to_geometry, vertices,
    CoordTransform, Geometry, GeometryError, Point, PointM, PointZ, PolygonRing, Position,
    Reprojected, Shape,
};
use shp2geojson::properties::{
    field_value_to_json, json_number_f64, record_to_properties, Date, DateTime, FieldValue,
    JsonValue,
};

fn point(x: f64, y: f64) -> Point {
    Point { x: x.to_bits(), y: y.to_bits() }
}

fn at(x: f64, y: f64) -> Position {
    Position { x: x.to_bits(), y: y.to_bits(), z: None }
}

fn converted(shape: &Shape) -> Geometry {
    shape_to_geometry(shape, &CoordTransform::Passthrough).unwrap().unwrap()
}

// ── Fields ──────────────────────────────────────────────────────────────────

#[test]
fn test_field_value_character_some() {
    let fv = FieldValue::Character(Some("hello".to_string()));
    assert_eq!(field_value_to_json(&fv), JsonValue::Text("hello".to_string()));
}

#[test]
fn test_field_value_character_none() {
    assert_eq!(field_value_to_json(&FieldValue::Character(None)), JsonValue::Null);
}

#[test]
fn test_field_value_numeric_some() {
    match field_value_to_json(&FieldValue::Numeric(Some(3.14f64.to_bits()))) {
        JsonValue::Double(n) => assert!((f64::from_bits(n) - 3.14).abs() < 1e-10),
        other => panic!("expected Number, got {other:?}"),
    }
}

#[test]
fn test_field_value_numeric_none() {
    assert_eq!(field_value_to_json(&FieldValue::Numeric(None)), JsonValue::Null);
}

#[test]
fn test_field_value_integer() {
    assert_eq!(field_value_to_json(&FieldValue::Integer(42)), JsonValue::Integer(42));
}

#[test]
fn test_field_value_logical_true() {
    assert_eq!(field_value_to_json(&FieldValue::Logical(Some(true))), JsonValue::Bool(true));
}

#[test]
fn test_field_value_logical_none() {
    assert_eq!(field_value_to_json(&FieldValue::Logical(None)), JsonValue::Null);
}

#[test]
fn test_field_value_date_some() {
    let fv = FieldValue::Date(Some(Date { year: 2026, month: 3, day: 8 }));
    assert_eq!(field_value_to_json(&fv), JsonValue::Text("2026-03-08".to_string()));
}

#[test]
fn test_field_value_date_none() {
    assert_eq!(field_value_to_json(&FieldValue::Date(None)), JsonValue::Null);
}

#[test]
fn test_field_value_memo() {
    let fv = FieldValue::Memo("long text".to_string());
    assert_eq!(field_value_to_json(&fv), JsonValue::Text("long text".to_string()));
}

#[test]
fn test_field_value_nan_becomes_null() {
    let fv = FieldValue::Numeric(Some(f64::NAN.to_bits()));
    assert_eq!(field_value_to_json(&fv), JsonValue::Null);
}

#[test]
fn test_field_value_date_time() {
    let fv = FieldValue::DateTime(DateTime {
        date: Date { year: 987, month: 12, day: 31 },
        hours: 1,
        minutes: 2,
        seconds: 3,
    });
    assert_eq!(field_value_to_json(&fv), JsonValue::Text("0987-12-31T01:02:03Z".to_string()));
}

#[test]
fn test_numbers_that_are_not_finite_become_null() {
    for x in [f64::INFINITY, f64::NEG_INFINITY, -f64::NAN] {
        assert_eq!(json_number_f64(x.to_bits()), JsonValue::Null);
        assert_eq!(field_value_to_json(&FieldValue::Double(x.to_bits())), JsonValue::Null);
        assert_eq!(field_value_to_json(&FieldValue::Currency(x.to_bits())), JsonValue::Null);
    }
    assert_eq!(json_number_f64(0.5f64.to_bits()), JsonValue::Double(0.5f64.to_bits()));
}

#[test]
fn test_finite_agrees_with_the_double() {
    for x in [
        0.0, -0.0, 1.0, f64::MAX, f64::MIN, f64::MIN_POSITIVE, 5e-324, f64::INFINITY,
        f64::NEG_INFINITY, f64::NAN, -f64::NAN,
    ] {
        assert_eq!(finite(x.to_bits()), x.is_finite(), "{x}");
    }
}

#[test]
fn test_record_keeps_names_and_order() {
    let record = vec![
        ("NAME".to_string(), FieldValue::Character(Some("a".to_string()))),
        ("POP".to_string(), FieldValue::Integer(-3)),
    ];
    assert_eq!(
        record_to_properties(&record),
        vec![
            ("NAME".to_string(), JsonValue::Text("a".to_string())),
            ("POP".to_string(), JsonValue::Integer(-3)),
        ]
    );
}

// ── Shapes ──────────────────────────────────────────────────────────────────

#[test]
fn test_null_shape_produces_none_geometry() {
    let result = shape_to_geometry(&Shape::NullShape, &CoordTransform::Passthrough).unwrap();
    assert!(result.is_none());
}

#[test]
fn test_point_shape() {
    assert_eq!(converted(&Shape::Point(point(10.0, 20.0))), Geometry::Point(at(10.0, 20.0)));
}

#[test]
fn test_pointz_includes_z_coordinate() {
    let p = PointZ {
        x: 1.0f64.to_bits(),
        y: 2.0f64.to_bits(),
        z: 3.0f64.to_bits(),
        m: 0.0f64.to_bits(),
    };
    if let Geometry::Point(c) = converted(&Shape::PointZ(p)) {
        assert_eq!(
            (c.x, c.y, c.z),
            (1.0f64.to_bits(), 2.0f64.to_bits(), Some(3.0f64.to_bits()))
        );
    } else {
        panic!("expected Point");
    }
}

#[test]
fn test_measure_is_dropped() {
    let p = PointM { x: 1.0f64.to_bits(), y: 2.0f64.to_bits(), m: f64::NAN.to_bits() };
    assert_eq!(converted(&Shape::PointM(p)), Geometry::Point(at(1.0, 2.0)));
}

#[test]
fn test_polyline_single_part_is_linestring() {
    let pl = Shape::Polyline(vec![vec![point(0.0, 0.0), point(1.0, 1.0)]]);
    assert_eq!(converted(&pl), Geometry::LineString(vec![at(0.0, 0.0), at(1.0, 1.0)]));
}

#[test]
fn test_polyline_multi_part_is_multilinestring() {
    let pl = Shape::Polyline(vec![
        vec![point(0.0, 0.0), point(1.0, 1.0)],
        vec![point(2.0, 2.0), point(3.0, 3.0)],
    ]);
    assert!(matches!(converted(&pl), Geometry::MultiLineString(_)));
}

#[test]
fn test_polygon_single_ring_is_polygon() {
    let ring = PolygonRing::Outer(vec![
        point(0.0, 0.0),
        point(1.0, 0.0),
        point(1.0, 1.0),
        point(0.0, 1.0),
        point(0.0, 0.0),
    ]);
    assert_eq!(
        converted(&Shape::Polygon(vec![ring])),
        Geometry::Polygon(vec![vec![
            at(0.0, 0.0),
            at(0.0, 1.0),
            at(1.0, 1.0),
            at(1.0, 0.0),
            at(0.0, 0.0),
        ]])
    );
}

#[test]
fn test_multipoint_shape() {
    let mp = Shape::Multipoint(vec![point(1.0, 2.0), point(3.0, 4.0)]);
    assert_eq!(converted(&mp), Geometry::MultiPoint(vec![at(1.0, 2.0), at(3.0, 4.0)]));
}

#[test]
fn test_rings_are_grouped_under_the_outline_before_them() {
    let ring = |x: f64| vec![point(x, 0.0), point(x, 1.0)];
    let back = |x: f64| vec![at(x, 1.0), at(x, 0.0)];
    let shape = Shape::Polygon(vec![
        PolygonRing::Outer(ring(1.0)),
        PolygonRing::Inner(ring(2.0)),
        PolygonRing::Outer(ring(3.0)),
        PolygonRing::Inner(ring(4.0)),
        PolygonRing::Inner(ring(5.0)),
    ]);
    assert_eq!(
        converted(&shape),
        Geometry::MultiPolygon(vec![
            vec![back(1.0), back(2.0)],
            vec![back(3.0), back(4.0), back(5.0)],
        ])
    );
}

#[test]
fn test_hole_without_an_outline_starts_a_polygon() {
    let rings = vec![
        PolygonRing::Inner(vec![point(1.0, 0.0)]),
        PolygonRing::Inner(vec![point(2.0, 0.0)]),
    ];
    let grouped = group_rings(&rings, &CoordTransform::Passthrough).unwrap();
    assert_eq!(grouped, vec![vec![vec![at(1.0, 0.0)], vec![at(2.0, 0.0)]]]);
    assert!(matches!(polygons_to_value(grouped), Geometry::Polygon(_)));
}

#[test]
fn test_polygon_without_rings_is_an_error() {
    let e = shape_to_geometry(&Shape::PolygonM(vec![]), &CoordTransform::Passthrough).unwrap_err();
    assert_eq!(e, GeometryError::NoRings);
    assert_eq!(
        geometry_error(e, "a.shp", ""),
        AppError::GeoJson {
            path: "a.shp".to_string(),
            reason: "polygon has no rings".to_string()
        }
    );
}

#[test]
fn test_multipatch_is_an_error() {
    let e = shape_to_geometry(&Shape::Multipatch, &CoordTransform::Passthrough).unwrap_err();
    assert_eq!(e, GeometryError::Multipatch);
    assert_eq!(
        geometry_error(e, "a.shp", "").message(),
        "GeoJSON serialisation error in a.shp: Multipatch shape should have been filtered before geometry conversion"
    );
}

#[test]
fn test_coordinate_that_is_not_finite_is_an_error() {
    let shape = Shape::Multipoint(vec![point(1.0, 2.0), point(f64::NAN, 4.0)]);
    let e = shape_to_geometry(&shape, &CoordTransform::Passthrough).unwrap_err();
    assert_eq!(e, GeometryError::NonFinite(at(f64::NAN, 4.0)));
    assert_eq!(
        geometry_error(e, "a.shp", "x=NaN, y=4"),
        AppError::GeoJson {
            path: "a.shp".to_string(),
            reason: "non-finite coordinate: x=NaN, y=4".to_string()
        }
    );
    let z = PointZ { x: 0, y: 0, z: f64::INFINITY.to_bits(), m: 0 };
    assert!(shape_to_geometry(&Shape::PointZ(z), &CoordTransform::Passthrough).is_err());
}

fn moved(x: f64, y: f64) -> Reprojected {
    Reprojected::To { x: x.to_bits(), y: y.to_bits() }
}

#[test]
fn test_reprojection_moves_each_vertex_and_keeps_its_height() {
    let z = |x: f64, h: f64| PointZ {
        x: x.to_bits(),
        y: 0.0f64.to_bits(),
        z: h.to_bits(),
        m: 0,
    };
    let shape = Shape::PolylineZ(vec![vec![z(1.0, 7.0)], vec![z(2.0, 8.0), z(3.0, 9.0)]]);
    assert_eq!(vertices(&shape).len(), 3);
    let t = CoordTransform::Projected(vec![moved(10.0, 0.5), moved(20.0, 0.5), moved(30.0, 0.5)]);
    let high = |x: f64, h: f64| Position {
        x: x.to_bits(),
        y: 0.5f64.to_bits(),
        z: Some(h.to_bits()),
    };
    assert_eq!(
        shape_to_geometry(&shape, &t).unwrap().unwrap(),
        Geometry::MultiLineString(vec![
            vec![high(10.0, 7.0)],
            vec![high(20.0, 8.0), high(30.0, 9.0)],
        ])
    );
}

#[test]
fn test_reprojection_failure_is_an_error_unless_the_vertex_is_not_finite() {
    let t = CoordTransform::Projected(vec![moved(1.0, 1.0), Reprojected::Failed("out".to_string())]);
    let shape = Shape::Multipoint(vec![point(1.0, 2.0), point(3.0, 4.0)]);
    let e = shape_to_geometry(&shape, &t).unwrap_err();
    assert_eq!(e, GeometryError::Projection("out".to_string()));
    assert_eq!(
        geometry_error(e, "a.shp", ""),
        AppError::Projection { path: "a.shp".to_string(), reason: "out".to_string() }
    );
    let shape = Shape::Multipoint(vec![point(1.0, 2.0), point(3.0, f64::INFINITY)]);
    assert!(matches!(shape_to_geometry(&shape, &t), Err(GeometryError::NonFinite(_))));
}

// ── Streams ─────────────────────────────────────────────────────────────────

fn files(geojsonl: bool) -> StreamFiles {
    StreamFiles { shp: "a.shp".to_string(), tmp: "a.geojson.tmp".to_string(), geojsonl }
}

fn record(shape: Shape) -> StreamEvent {
    StreamEvent::Record(
        shape,
        vec![("ID".to_string(), FieldValue::Integer(1))],
        CoordTransform::Passthrough,
    )
}

fn reading() -> FeatureStream {
    let mut s = FeatureStream::new();
    assert_eq!(s.state, StreamState::Resolving);
    s.write_features(&files(false), StreamEvent::Resolved(Ok(())));
    assert_eq!(s.state, StreamState::Opening);
    s.write_features(&files(false), StreamEvent::Opened(Ok(())));
    assert_eq!(s.state, StreamState::Creating);
    s.write_features(&files(false), StreamEvent::Created(Ok(())));
    assert_eq!(s.state, StreamState::Reading);
    s
}

#[test]
fn test_stream_counts_features_and_skipped_records() {
    let mut s = reading();
    let f = files(false);
    for k in 0..3u64 {
        s.write_features(&f, record(Shape::Point(point(k as f64, 0.0))));
        assert_eq!(
            s.state,
            StreamState::Writing(Feature {
                geometry: Some(Geometry::Point(at(k as f64, 0.0))),
                properties: vec![("ID".to_string(), JsonValue::Integer(1))],
            })
        );
        s.write_features(&f, StreamEvent::Written(Ok(())));
        s.write_features(&f, record(Shape::Multipatch));
        assert_eq!(s.state, StreamState::Reading);
        assert_eq!((s.features_written, s.records_skipped), (k + 1, k + 1));
    }
    s.write_features(&f, StreamEvent::Exhausted);
    assert_eq!(s.state, StreamState::Closing);
    s.write_features(&f, StreamEvent::Closed(Ok(())));
    assert_eq!(s.state, StreamState::Done);
    assert_eq!((s.features_written, s.records_skipped), (3, 3));
    s.write_features(&f, record(Shape::NullShape));
    assert_eq!(s.state, StreamState::Done);
}

#[test]
fn test_progress_is_reported_for_features_that_are_written() {
    let f = files(false);
    let mut s = reading();
    let mut ticks = 0;
    let events = vec![
        record(Shape::Point(point(1.0, 2.0))),
        StreamEvent::Written(Ok(())),
        // A record that is skipped is not reported.
        record(Shape::Multipatch),
        // Nothing is being written here.
        StreamEvent::Written(Ok(())),
        record(Shape::NullShape),
        StreamEvent::Written(Ok(())),
        record(Shape::Point(point(3.0, 4.0))),
        StreamEvent::Written(Err(WriteFailure::Encode("full".to_string()))),
    ];
    for event in events {
        if s.is_record_written(&event) {
            ticks += 1;
        }
        s.write_features(&f, event);
    }
    assert!(matches!(s.state, StreamState::Failed(_)));
    assert_eq!(ticks, 2);
    assert_eq!(s.features_written, 2);
    assert_eq!(s.records_skipped, 1);
}

#[test]
fn test_feature_of_a_null_shape_has_a_null_geometry() {
    let f = build_feature(&Shape::NullShape, &vec![], &CoordTransform::Passthrough).unwrap();
    assert_eq!(f, Feature { geometry: None, properties: vec![] });
}

fn failure(mut s: FeatureStream, f: &StreamFiles, event: StreamEvent) -> AppError {
    s.write_features(f, event);
    match s.state {
        StreamState::Failed(StreamError::File(e)) => e,
        other => panic!("expected a failure, got {other:?}"),
    }
}

fn in_state(state: StreamState) -> FeatureStream {
    FeatureStream { state, features_written: 0, records_skipped: 0 }
}

#[test]
fn test_stream_failures_name_the_file_that_failed() {
    let c = || "cause".to_string();
    let io = |path: &str| AppError::Io { path: path.to_string(), source: c() };
    let shape = || AppError::ShapefileRead { path: "a.shp".to_string(), source: c() };
    let json = |path: &str| AppError::GeoJson { path: path.to_string(), reason: c() };
    let feature = || StreamState::Writing(Feature { geometry: None, properties: vec![] });
    let tmp = "a.geojson.tmp";

    assert_eq!(
        failure(FeatureStream::new(), &files(false), StreamEvent::Resolved(Err(io("a.prj")))),
        io("a.prj")
    );
    assert_eq!(
        failure(in_state(StreamState::Opening), &files(false), StreamEvent::Opened(Err(c()))),
        shape()
    );
    assert_eq!(
        failure(in_state(StreamState::Creating), &files(false), StreamEvent::Created(Err(c()))),
        io(tmp)
    );
    assert_eq!(
        failure(in_state(StreamState::Reading), &files(false), StreamEvent::Unreadable(c())),
        shape()
    );
    for lines in [false, true] {
        assert_eq!(
            failure(
                in_state(feature()),
                &files(lines),
                StreamEvent::Written(Err(WriteFailure::Encode(c())))
            ),
            json("a.shp")
        );
        assert_eq!(
            failure(
                in_state(feature()),
                &files(lines),
                StreamEvent::Written(Err(WriteFailure::Newline(c())))
            ),
            io(tmp)
        );
        assert_eq!(
            failure(
                in_state(StreamState::Closing),
                &files(lines),
                StreamEvent::Closed(Err(CloseFailure::Finish(c())))
            ),
            json("a.shp")
        );
    }
    assert_eq!(
        failure(
            in_state(StreamState::Closing),
            &files(true),
            StreamEvent::Closed(Err(CloseFailure::Flush(c())))
        ),
        io(tmp)
    );
    assert_eq!(
        failure(
            in_state(StreamState::Closing),
            &files(false),
            StreamEvent::Closed(Err(CloseFailure::Flush(c())))
        ),
        json(tmp)
    );
}

#[test]
fn test_stream_ends_at_a_shape_without_a_geometry() {
    let mut s = reading();
    s.write_features(&files(false), record(Shape::Polygon(vec![])));
    assert_eq!(s.state, StreamState::Failed(StreamError::Geometry(GeometryError::NoRings)));
}
