use jpksj_to_sql::output::{
    file_extension_for_format, is_postgres_format, normalize_extension, normalize_format,
    parse_output_target, OutputTarget,
};

#[test]
fn postgres_names_select_the_database() {
    for f in ["postgres", "PostgreSQL", " PostGIS ", "pg"] {
        match parse_output_target(f, "host=db") {
            OutputTarget::Postgres { postgres_url } => assert_eq!(postgres_url, "host=db"),
            _ => panic!("{}", f),
        }
    }
    assert!(is_postgres_format("pg"));
    assert!(!is_postgres_format("PG"));
}

#[test]
fn file_formats_get_extensions() {
    let cases = [
        ("GeoParquet", "parquet"),
        ("parquet", "parquet"),
        ("GeoJSON", "geojson"),
        ("GeoJSONSeq", "geojson"),
        ("FlatGeobuf", "fgb"),
        ("GPKG", "gpkg"),
        ("ESRI Shapefile", "esri_shapefile"),
        ("  ", "gdal"),
    ];
    for (format, ext) in cases {
        match parse_output_target(format, "/out") {
            OutputTarget::File { output_dir, gdal_driver, file_extension } => {
                assert_eq!(output_dir, "/out");
                assert_eq!(gdal_driver, format);
                assert_eq!(file_extension, ext, "{}", format);
            }
            _ => panic!("{}", format),
        }
    }
}

#[test]
fn extension_slugs() {
    assert_eq!(normalize_extension("--My Format!!"), "my_format");
    assert_eq!(normalize_extension("a__b"), "a_b");
    assert_eq!(normalize_extension("!!!"), "gdal");
    assert_eq!(normalize_extension(""), "gdal");
    assert_eq!(file_extension_for_format("csv"), "csv");
    assert_eq!(normalize_format("  GPKG\t"), "gpkg");
}

#[test]
fn output_paths_and_getters() {
    let t = OutputTarget::File {
        output_dir: "/out/".to_string(),
        gdal_driver: "GPKG".to_string(),
        file_extension: "gpkg".to_string(),
    };
    assert_eq!(t.output_path("n03"), Some("/out/n03.gpkg".to_string()));
    assert_eq!(t.output_path("a.b"), Some("/out/a.gpkg".to_string()));
    assert_eq!(t.gdal_driver(), Some("GPKG"));
    assert_eq!(t.file_extension(), Some("gpkg"));
    assert_eq!(t.output_dir(), Some("/out/"));
    assert_eq!(t.postgres_url(), None);
    let pg = OutputTarget::Postgres { postgres_url: "host=db".to_string() };
    assert_eq!(pg.output_path("n03"), None);
    assert_eq!(pg.postgres_url(), Some("host=db"));
    assert_eq!(pg.output_dir(), None);
    let rel = OutputTarget::File {
        output_dir: "out".to_string(),
        gdal_driver: "GeoJSON".to_string(),
        file_extension: "geojson".to_string(),
    };
    assert_eq!(rel.output_path("a38a"), Some("out/a38a.geojson".to_string()));
}
