use shp2geojson::error::AppError;
use shp2geojson::reproject::{
    is_wgs84, projection_error, resolve_transform, upper_case_is_wgs84, Reprojector, TARGET_CRS,
};

const UTM: &str = r#"PROJCS["WGS 84 / UTM zone 32N",GEOGCS["WGS 84",DATUM["WGS_1984",SPHEROID["WGS 84",6378137,298.257223563]],PRIMEM["Greenwich",0],UNIT["degree",0.0174532925199433]],PROJECTION["Transverse_Mercator"],PARAMETER["latitude_of_origin",0],PARAMETER["central_meridian",9],PARAMETER["scale_factor",0.9996],PARAMETER["false_easting",500000],PARAMETER["false_northing",0],UNIT["metre",1]]"#;

const WGS84: &str = r#"GEOGCS["GCS_WGS_1984",DATUM["D_WGS_1984",SPHEROID["WGS_1984",6378137.0,298.257223563]],PRIMEM["Greenwich",0.0],UNIT["Degree",0.0174532925199433]]"#;

#[test]
fn test_is_wgs84_returns_true_for_gcs_wgs_1984() {
    assert!(is_wgs84(WGS84));
}

#[test]
fn test_is_wgs84_returns_true_for_wgs84_shorthand() {
    assert!(is_wgs84("GEOGCS[\"WGS84\",...]"));
}

#[test]
fn test_is_wgs84_returns_true_for_wgs_space_84() {
    assert!(is_wgs84("GEOGCS[\"WGS 84\",...]"));
}

#[test]
fn test_is_wgs84_returns_false_for_utm_projected() {
    let wkt = r#"PROJCS["WGS_1984_UTM_Zone_32N",GEOGCS["GCS_WGS_1984",...],PROJECTION["Transverse_Mercator"],...]"#;
    assert!(!is_wgs84(wkt));
}

#[test]
fn test_is_wgs84_returns_false_for_state_plane() {
    let wkt = r#"PROJCS["NAD83 / California zone 6",GEOGCS["NAD83",...],...]"#;
    assert!(!is_wgs84(wkt));
}

#[test]
fn test_is_wgs84_returns_false_for_nad83() {
    let wkt = r#"GEOGCS["NAD83",DATUM["D_North_American_1983",...],...]"#;
    assert!(!is_wgs84(wkt));
}

#[test]
fn test_is_wgs84_returns_false_for_empty_string() {
    assert!(!is_wgs84(""));
}

#[test]
fn test_is_wgs84_case_insensitive() {
    // Lowercase should still match.
    assert!(is_wgs84("geogcs[\"gcs_wgs_1984\",...]"));
}

#[test]
fn test_is_wgs84_projcrs_prefix_returns_false() {
    // ISO WKT2 uses PROJCRS[ instead of PROJCS[
    let wkt = r#"PROJCRS["WGS 84 / UTM zone 32N",...]"#;
    assert!(!is_wgs84(wkt));
}

#[test]
fn test_is_wgs84_by_each_indicator() {
    for wkt in [
        "WGS_1984",
        "x WGS 84",
        "WGS84",
        "World Geodetic System 1984",
        r#"AUTHORITY["EPSG","4326"]"#,
        r#"ID["EPSG",4326]"#,
    ] {
        assert!(is_wgs84(wkt), "{wkt}");
    }
    assert!(!is_wgs84(r#"ID["EPSG",4269]"#));
    assert!(!is_wgs84("projcs[\"wgs84\"]"));
}

#[test]
fn test_is_wgs84_is_not_misled_by_a_datum_shift() {
    let nad27 = r#"GEOGCS["NAD27",DATUM["North_American_Datum_1927",SPHEROID["Clarke 1866",6378206.4,294.9786982],TOWGS84[-8,160,176,0,0,0,0]]]"#;
    assert!(!is_wgs84(nad27));
    assert!(!is_wgs84(&nad27.to_lowercase()));
    let r = Reprojector::from_prj("a.prj", Ok(nad27.to_string())).unwrap();
    assert!(r.is_some());
    // The shift does not hide what the CRS itself is.
    assert!(is_wgs84(
        r#"GEOGCS["WGS 84",DATUM["WGS_1984",SPHEROID["WGS 84",6378137,298.257223563],TOWGS84[0,0,0,0,0,0,0]]]"#
    ));
    assert!(is_wgs84("TOWGS84 WGS84"));
}

#[test]
fn test_is_wgs84_is_not_misled_by_an_ellipsoid() {
    assert!(!is_wgs84(
        r#"GEOGCS["POSGAR 94",DATUM["Posiciones_Geodesicas_Argentinas_1994",SPHEROID["WGS 84",6378137,298.257223563]]]"#
    ));
    assert!(!is_wgs84(
        r#"GEOGCS["GCS_POSGAR",DATUM["D_POSGAR",SPHEROID["WGS_1984",6378137.0,298.257223563]]]"#
    ));
    assert!(!is_wgs84(r#"GEOGCRS["POSGAR 94",DATUM["x",ELLIPSOID["WGS 84",6378137,298.2]]]"#));
    assert!(!is_wgs84(r#"GEOGCS["x",EXTENSION["PROJ4","+proj=longlat +ellps=WGS84"]]"#));
}

#[test]
fn test_is_wgs84_where_the_datum_is_named() {
    let named = r#"GEOGCS["Geographic",DATUM["World_Geodetic_System_1984",SPHEROID["WGS_1984",6378137.0,298.257223563]],PRIMEM["Greenwich",0.0],UNIT["Degree",0.0174532925199433]]"#;
    assert!(is_wgs84(named));
    assert!(is_wgs84(&named.to_uppercase()));
    assert!(Reprojector::from_prj("a.prj", Ok(named.to_string())).unwrap().is_none());
    for datum in ["WGS_84", "WGS-84", "WGS1984", "WGS 1984"] {
        let wkt = format!(r#"GEOGCS["x",DATUM["{datum}",SPHEROID["WGS 84",6378137,298.2]]]"#);
        assert!(is_wgs84(&wkt), "{wkt}");
        // Without an indicator, the name of the datum is not enough.
        let wkt = format!(r#"GEOGCS["x",DATUM["{datum}",SPHEROID["y",6378137,298.2]]]"#);
        assert!(!is_wgs84(&wkt), "{wkt}");
    }
    assert!(!is_wgs84(r#"DATUM["World_Geodetic_System_1984",TOWGS84[0,0,0,0,0,0,0]]"#));
}

#[test]
fn test_is_wgs84_of_a_realisation() {
    assert!(is_wgs84(
        r#"GEOGCS["WGS_1984_(G1762)",DATUM["World_Geodetic_System_1984_(G1762)",SPHEROID["WGS_1984",6378137.0,298.257223563]],PRIMEM["Greenwich",0.0],UNIT["Degree",0.0174532925199433]]"#
    ));
    assert!(is_wgs84(r#"GEOGCS["WGS 84 (G1762)"]"#));
    assert!(is_wgs84(r#"GEOGCS["WGS_1984_(Transit)"]"#));
}

#[test]
fn test_is_wgs84_is_not_misled_by_a_longer_name() {
    assert!(!is_wgs84(r#"GEOGCS["GCS_WGS_1984_Major_Auxiliary_Sphere",DATUM["D_WGS_1984_Major_Auxiliary_Sphere",SPHEROID["WGS_1984_Major_Auxiliary_Sphere",6378137.0,0.0]]]"#));
    assert!(!is_wgs84(r#"ID["EPSG",43260]"#));
    assert!(!is_wgs84(r#"AUTHORITY["EPSG","43260"]"#));
}

#[test]
fn test_is_wgs84_of_other_kinds_of_crs() {
    assert!(!is_wgs84(
        r#"COMPD_CS["x",PROJCS["WGS 84 / UTM zone 32N",GEOGCS["WGS 84"]],VERT_CS["EGM96"]]"#
    ));
    assert!(!is_wgs84(r#"COMPOUNDCRS["x",PROJCRS["y",BASEGEOGCRS["WGS 84"]]]"#));
    assert!(is_wgs84(r#"COMPD_CS["WGS 84 + EGM96",GEOGCS["WGS 84"],VERT_CS["EGM96"]]"#));
    assert!(!is_wgs84(
        r#"BOUNDCRS[SOURCECRS[GEOGCRS["NAD27"]],TARGETCRS[GEOGCRS["WGS 84"]],ABRIDGEDTRANSFORMATION["NAD27 to WGS 84"]]"#
    ));
    assert!(!is_wgs84(r#"PROJECTEDCRS["WGS 84 / UTM zone 32N"]"#));
    assert!(!is_wgs84(r#"GEOCCS["WGS 84",DATUM["WGS_1984"]]"#));
    assert!(!is_wgs84(r#"GEODCRS["WGS 84",CS[Cartesian,3]]"#));
    assert!(!is_wgs84(r#"GEOGCRS["x",BASEGEOGCRS["WGS 84"],DERIVINGCONVERSION["Pole rotation"]]"#));
    assert!(!is_wgs84(r#"LOCAL_CS["WGS 84 / Pseudo-Mercator"]"#));
    assert!(!is_wgs84(r#"ENGCRS["site",EDATUM["near WGS 84"]]"#));
    assert!(!is_wgs84(r#"FITTED_CS["x",GEOGCS["WGS 84"]]"#));
    assert!(is_wgs84(r#"GEOGCRS["WGS 84",CS[ellipsoidal,2]]"#));
}

#[test]
fn test_upper_case_is_taken_as_it_stands() {
    assert!(upper_case_is_wgs84("WGS84"));
    assert!(!upper_case_is_wgs84("wgs84"));
}

#[test]
fn test_from_prj_returns_none_for_wgs84() {
    let result = Reprojector::from_prj("a.prj", Ok(WGS84.to_string())).unwrap();
    assert!(result.is_none(), "expected None for WGS84 .prj");
}

#[test]
fn test_from_prj_returns_some_for_projected_crs() {
    let result = Reprojector::from_prj("a.prj", Ok(format!("\n  {UTM} \r\n"))).unwrap();
    assert!(result.is_some(), "expected Some(Reprojector) for projected CRS");
    assert_eq!(result.unwrap().source_crs, UTM);
    assert_eq!(TARGET_CRS, "EPSG:4326");
}

#[test]
fn test_from_prj_missing_file_returns_error() {
    let result = Reprojector::from_prj(
        "/nonexistent/path/to/file.prj",
        Err("No such file or directory (os error 2)".to_string()),
    );
    assert!(result.is_err());
    let err = result.unwrap_err().message();
    assert!(err.contains("I/O") || err.contains("No such file"), "{err}");
}

#[test]
fn test_transform_is_resolved_once_per_file() {
    assert_eq!(resolve_transform(None), Ok(None));
    assert_eq!(
        resolve_transform(Some(("a.prj".to_string(), Ok(WGS84.to_string())))),
        Ok(None)
    );
    assert_eq!(
        resolve_transform(Some(("a.prj".to_string(), Ok(UTM.to_string())))),
        Ok(Some(Reprojector { source_crs: UTM.to_string() }))
    );
    assert_eq!(
        resolve_transform(Some(("a.prj".to_string(), Err("denied".to_string())))),
        Err(AppError::Io { path: "a.prj".to_string(), source: "denied".to_string() })
    );
}

#[test]
fn test_projection_error_names_the_file() {
    assert_eq!(
        projection_error("a.prj", "bad CRS".to_string()),
        AppError::Projection { path: "a.prj".to_string(), reason: "bad CRS".to_string() }
    );
}
