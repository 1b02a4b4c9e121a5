use jpksj_to_sql::archive::{entry_action, shapefile_paths, EntryAction};
use jpksj_to_sql::catalog::{AttributeInfo, Dataset, RefType, Variant};
use jpksj_to_sql::conversion::{create_vrt, VrtSource};
use jpksj_to_sql::mapping::resolve;
use jpksj_to_sql::output::parse_output_target;
use jpksj_to_sql::schema::{
    column_metadata, introspect_schema, table_metadata, ColumnSchema, LayerInfo,
};

fn n03_dataset() -> Dataset {
    Dataset {
        identifier: "N03".to_string(),
        name: "行政区域".to_string(),
        category1_name: "政策区域".to_string(),
        category2_name: "行政地域".to_string(),
        description: "全国の行政界".to_string(),
        version: "2024".to_string(),
        data_year: "令和6年".to_string(),
        usage: "オープンデータ".to_string(),
        source_url: "https://example.invalid/N03.html".to_string(),
        variants: vec![Variant {
            variant_name: "行政区域".to_string(),
            variant_identifier: "N03".to_string(),
            geometry_type: Some("Polygon".to_string()),
            geometry_description: None,
            shapefile_hint: None,
            attributes: vec![AttributeInfo {
                readable_name: "都道府県名".to_string(),
                attribute_name: "N03_001".to_string(),
                description: "都道府県の名称".to_string(),
                attr_type: "文字列型".to_string(),
                type_ref_url: None,
                reference: None,
            }],
        }],
        attributes: vec![],
        zip_file_paths: vec!["./tmp/N03-20240101_GML.zip".to_string()],
    }
}

#[test]
fn end_to_end_file_destination_schema() {
    let d = n03_dataset();
    let ms = resolve(&d, &vec![]).unwrap();
    assert_eq!(ms.len(), 1);
    let m = &ms[0];

    let entries = ["N03-20240101.shp", "N03-20240101.dbf", "N03-20240101.shx", "N03-20240101.prj"];
    let mut extracted = vec![];
    for e in entries {
        assert_eq!(entry_action(e, &m.shapefile_name_regex), EntryAction::Extract);
        extracted.push(format!("./tmp/shp/N03-20240101_GML/{}", e));
    }
    let shps = shapefile_paths(&extracted);
    assert_eq!(shps, vec!["./tmp/shp/N03-20240101_GML/N03-20240101.shp".to_string()]);

    let sources = vec![VrtSource::new(&shps[0], "CP932".to_string())];
    let vrt = create_vrt("n03", &sources, &m.field_mappings, &vec!["N03_001".to_string()]).unwrap();
    assert!(vrt.contains(r#"<Field name="都道府県名" src="N03_001" />"#));

    let target = parse_output_target("GPKG", "/out");
    assert_eq!(target.output_path(&m.identifier), Some("/out/N03.gpkg".to_string()));

    let info = LayerInfo {
        fields: vec![("都道府県名".to_string(), "String".to_string())],
        geometry_column: "geom".to_string(),
        geometry_type: "Polygon".to_string(),
        srid: Some(6668),
    };
    let schema = introspect_schema(Some(info)).unwrap();
    assert_eq!(schema.columns.len(), 3);
    assert_eq!(schema.columns[0].name, "ogc_fid");
    assert_eq!(schema.columns[0].data_type, "integer");
    assert_eq!(schema.columns[1].name, "都道府県名");
    assert_eq!(schema.columns[1].data_type, "varchar");
    assert_eq!(schema.columns[2].name, "geom");
    assert_eq!(schema.columns[2].geometry_type, Some("MultiPolygon".to_string()));
    assert_eq!(schema.columns[2].srid, Some(6668));

    let meta = table_metadata(m, &d, &schema.columns);
    assert_eq!(meta.name, "行政区域");
    assert_eq!(meta.primary_key, Some("ogc_fid".to_string()));
    assert_eq!(meta.columns[1].desc, Some("都道府県の名称".to_string()));
    assert_eq!(meta.columns[0].desc, None);
    assert_eq!(meta.license, Some("オープンデータ".to_string()));
}

#[test]
fn missing_layer_is_an_introspection_failure() {
    assert!(introspect_schema(None).is_err());
}

#[test]
fn column_types_and_multi_promotion() {
    let info = LayerInfo {
        fields: vec![
            ("a".to_string(), "Integer".to_string()),
            ("b".to_string(), "Integer64".to_string()),
            ("c".to_string(), "Real".to_string()),
            ("d".to_string(), "Date".to_string()),
            ("e".to_string(), "StringList".to_string()),
        ],
        geometry_column: "geom".to_string(),
        geometry_type: "MultiLineString".to_string(),
        srid: None,
    };
    let s = introspect_schema(Some(info)).unwrap();
    let types: Vec<&str> = s.columns.iter().map(|c| c.data_type.as_str()).collect();
    assert_eq!(types, vec!["integer", "integer", "bigint", "double precision", "date", "varchar", "geometry"]);
    assert_eq!(s.columns[6].geometry_type, Some("MultiLineString".to_string()));
}

#[test]
fn coded_columns_carry_codes_and_references() {
    let attrs = vec![
        AttributeInfo {
            readable_name: "行政区域コード".to_string(),
            attribute_name: "N03_007".to_string(),
            description: "JIS X 0401".to_string(),
            attr_type: "コードリスト".to_string(),
            type_ref_url: Some("https://example.invalid/AdminiBoundary_CD.xlsx".to_string()),
            reference: None,
        },
        AttributeInfo {
            readable_name: "種別".to_string(),
            attribute_name: "X_002".to_string(),
            description: "種別".to_string(),
            attr_type: "コードリスト".to_string(),
            type_ref_url: Some("https://example.invalid/Kind.html".to_string()),
            reference: Some(RefType::Code(vec![("1".to_string(), "病院".to_string())])),
        },
    ];
    let col = |n: &str| ColumnSchema {
        name: n.to_string(),
        data_type: "varchar".to_string(),
        geometry_type: None,
        srid: None,
    };
    let a = column_metadata(&col("行政区域コード"), &attrs);
    let fk = a.foreign_key.unwrap();
    assert_eq!(fk.foreign_table, "admini_boundary_cd");
    assert_eq!(fk.foreign_column, "行政区域コード");
    assert!(a.enum_values.is_none());
    let b = column_metadata(&col("種別"), &attrs);
    assert!(b.foreign_key.is_none());
    let ev = b.enum_values.unwrap();
    assert_eq!(ev.len(), 1);
    assert_eq!(ev[0].value, "1");
    assert_eq!(ev[0].desc, Some("病院".to_string()));
    let c = column_metadata(&col("other"), &attrs);
    assert!(c.desc.is_none() && c.foreign_key.is_none() && c.enum_values.is_none());
}

#[test]
fn code_table_metadata_record() {
    let m = jpksj_to_sql::schema::admini_boundary_metadata();
    assert_eq!(m.name, "行政区域コード");
    assert_eq!(m.columns.len(), 11);
    assert_eq!(m.columns[7].name, "改正後のコード");
    assert!(m.columns[7].desc.is_some());
    assert!(m.columns.iter().enumerate().all(|(i, c)| c.desc.is_some() == (i == 7)));
    assert_eq!(m.primary_key, Some("行政区域コード".to_string()));
}
