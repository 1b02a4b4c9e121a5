use jpksj_to_sql::catalog::{AttributeInfo, Dataset, Variant};
use jpksj_to_sql::mapping::{
    format_name, resolve, MappingError, OverrideOutput, OverrideRule, ShapefileMetadataBuilder,
};

fn attr(readable: &str, name: &str) -> AttributeInfo {
    AttributeInfo {
        readable_name: readable.to_string(),
        attribute_name: name.to_string(),
        description: format!("{}の説明", readable),
        attr_type: "文字列型".to_string(),
        type_ref_url: None,
        reference: None,
    }
}

fn dataset(id: &str, name: &str, variants: Vec<Variant>, attributes: Vec<AttributeInfo>) -> Dataset {
    Dataset {
        identifier: id.to_string(),
        name: name.to_string(),
        category1_name: "政策区域".to_string(),
        category2_name: "行政地域".to_string(),
        description: "説明".to_string(),
        version: "2024年度版".to_string(),
        data_year: "令和6年".to_string(),
        usage: "商用可".to_string(),
        source_url: "https://example.invalid/N03.html".to_string(),
        variants,
        attributes,
        zip_file_paths: vec!["./tmp/N03-20240101_GML.zip".to_string()],
    }
}

fn variant(id: &str, name: &str, hint: Option<&str>, attributes: Vec<AttributeInfo>) -> Variant {
    Variant {
        variant_name: name.to_string(),
        variant_identifier: id.to_string(),
        geometry_type: None,
        geometry_description: None,
        shapefile_hint: hint.map(|s| s.to_string()),
        attributes,
    }
}

fn two_output_rule() -> Vec<OverrideRule> {
    vec![OverrideRule {
        identifier: "N03".to_string(),
        outputs: vec![
            OverrideOutput {
                identifier: "N03".to_string(),
                name: "行政区域".to_string(),
                template: "N03-YYMMDD.shp".to_string(),
            },
            OverrideOutput {
                identifier: "N03_pref".to_string(),
                name: "都道府県".to_string(),
                template: "N03-YY_PP_prefecture.shp".to_string(),
            },
        ],
    }]
}

#[test]
fn override_rule_gives_exactly_its_outputs() {
    let d = dataset("N03", "行政区域（ポリゴン）", vec![], vec![attr("都道府県名", "N03_001")]);
    let ms = resolve(&d, &two_output_rule()).unwrap();
    assert_eq!(ms.len(), 2);
    assert_eq!(ms[0].identifier, "N03");
    assert_eq!(ms[1].identifier, "N03_pref");
    assert_eq!(ms[1].name, "都道府県");
    assert_eq!(ms[1].original_identifier, "N03");
    assert_eq!(ms[1].shapefile_matcher, vec!["N03-YY_PP_prefecture.shp".to_string()]);
    assert!(ms[1].shapefile_name_regex[0].is_match("N03-24_13_prefecture.shp"));
    assert_eq!(ms[1].field_mappings, vec![("都道府県名".to_string(), "N03_001".to_string())]);
}

#[test]
fn without_rule_one_singleton_mapping() {
    let d = dataset("N03", "行政区域（ポリゴン）", vec![], vec![attr("都道府県名", "N03_001")]);
    let ms = resolve(&d, &vec![]).unwrap();
    assert_eq!(ms.len(), 1);
    assert_eq!(ms[0].identifier, "N03");
    assert_eq!(ms[0].name, "行政区域");
    assert!(ms[0].shapefile_matcher.is_empty());
    assert!(ms[0].shapefile_name_regex[0].is_match("N03-20240101.dbf"));
}

#[test]
fn declared_variants_are_not_replaced_by_rule() {
    let d = dataset(
        "N03",
        "行政区域",
        vec![variant("N03", "行政区域", Some("N03-YY.shp"), vec![attr("都道府県名", "N03_001")])],
        vec![],
    );
    let ms = resolve(&d, &two_output_rule()).unwrap();
    assert_eq!(ms.len(), 1);
    assert_eq!(ms[0].shapefile_matcher, vec!["N03-YY.shp".to_string()]);
}

#[test]
fn one_mapping_per_variant() {
    let d = dataset(
        "C28",
        "空港",
        vec![
            variant("C28_line", "空港（ライン）", Some("C28-YY_Line.shp"), vec![attr("名称", "C28_005")]),
            variant("C28_point", "空港（ポイント）", None, vec![]),
        ],
        vec![attr("b", "C28_002"), attr("a", "C28_001")],
    );
    let ms = resolve(&d, &vec![]).unwrap();
    assert_eq!(ms.len(), 2);
    assert_eq!(ms[0].identifier, "C28_line");
    assert_eq!(ms[0].name, "空港");
    assert_eq!(ms[0].field_mappings, vec![("名称".to_string(), "C28_005".to_string())]);
    assert_eq!(ms[1].identifier, "C28_point");
    assert_eq!(
        ms[1].field_mappings,
        vec![("a".to_string(), "C28_001".to_string()), ("b".to_string(), "C28_002".to_string())]
    );
    assert_eq!(ms[0].cat1, "政策区域");
    assert_eq!(ms[0].version, "2024年度版");
}

#[test]
fn variant_without_identifier_fails_whole_resolution() {
    let d = dataset(
        "C28",
        "空港",
        vec![variant("C28_a", "a", None, vec![]), variant("", "b", None, vec![])],
        vec![],
    );
    match resolve(&d, &vec![]) {
        Err(MappingError::MissingFields(f)) => assert_eq!(f, vec!["identifier".to_string()]),
        Ok(_) => panic!("expected an error"),
    }
}

#[test]
fn builder_lists_every_missing_field() {
    let b = ShapefileMetadataBuilder::new();
    match b.finish() {
        Err(MappingError::MissingFields(f)) => assert_eq!(
            f,
            vec![
                "cat1", "cat2", "name", "version", "data_year", "field_mappings",
                "original_identifier", "identifier"
            ]
            .into_iter()
            .map(|s| s.to_string())
            .collect::<Vec<_>>()
        ),
        Ok(_) => panic!("expected an error"),
    }
}

#[test]
fn builder_defaults_to_any_shapefile() {
    let mut b = ShapefileMetadataBuilder::new();
    b.cat1 = Some("c1".to_string());
    b.cat2 = Some("c2".to_string());
    b.name = Some("n".to_string());
    b.version = Some("v".to_string());
    b.data_year = Some("y".to_string());
    b.field_mappings = Some(vec![]);
    b.original_identifier = Some("X".to_string());
    b.identifier = Some("X".to_string());
    let m = b.finish().unwrap();
    assert_eq!(m.shapefile_name_regex.len(), 1);
    assert!(m.shapefile_name_regex[0].is_match("anything.shp"));
}

#[test]
fn display_names_lose_annotations() {
    assert_eq!(format_name("鉄道時系列（ライン）"), "鉄道時系列");
    assert_eq!(format_name(" 行政区域（ポリゴン） "), "行政区域");
    assert_eq!(format_name("a（）b"), "a（）b");
    assert_eq!(format_name("a（x）b（y"), "ab（y");
}
