use jpksj_to_sql::mapping::{find_mapping_def_for_entry, MappingError, OverrideOutput, OverrideRule};
use jpksj_to_sql::sheet::{admini_boundary_rows, cell, parse_mapping_rows};

fn row(cells: [&str; 9]) -> Vec<Option<String>> {
    cells
        .iter()
        .map(|c| if c.is_empty() { None } else { Some(c.to_string()) })
        .collect()
}

fn sample_rows() -> Vec<Vec<Option<String>>> {
    vec![
        row(["表題", "", "", "", "", "", "", "", ""]),
        row(["大分類", "中分類", "名称", "版", "年", "シェープファイル名", "属性名", "属性コード", "識別子"]),
        row([
            "2. 政策区域",
            "大都市圏・条件不利地域",
            "三大都市圏計画区域（ポリゴン）",
            "2003年度版",
            "平成15年度",
            "A03-YY_SYUTO-g_ThreeMajorMetroPlanArea.shp",
            "都道府県名",
            "A03_001",
            "A03",
        ]),
        row(["", "", "", "", "", "", "市区町村名", "A03_002", "A03"]),
        row(["3. 地域", "保健", "医療圏", "2020年度版", "令和2年度", "A38-YY_PP_a.shp", "行政区域コード", "A38a_001", "A38"]),
        row(["3. 地域", "保健", "医療圏", "2020年度版", "令和2年度", "", "行政区域コード", "A38b_001", "A38"]),
        row(["3. 地域", "保健", "医療圏", "2020年度版", "令和2年度", "", "都道府県名", "A38c_001", "A38"]),
    ]
}

#[test]
fn spreadsheet_records_and_medical_area_split() {
    let defs = parse_mapping_rows(&sample_rows()).unwrap();
    assert_eq!(defs.len(), 4);
    let first = &defs[0];
    assert_eq!(first.cat1, "2. 政策区域");
    assert_eq!(first.cat2, "大都市圏・条件不利地域");
    assert_eq!(first.name, "三大都市圏計画区域");
    assert_eq!(first.version, "2003年度版");
    assert_eq!(first.data_year, "平成15年度");
    assert_eq!(first.shapefile_matcher, vec!["A03-YY_SYUTO-g_ThreeMajorMetroPlanArea.shp".to_string()]);
    assert_eq!(first.field_mappings.len(), 2);
    assert_eq!(first.identifier, "A03");
    let names: Vec<&str> = defs[1..].iter().map(|m| m.name.as_str()).collect();
    assert_eq!(names, vec!["一次医療圏", "二次医療圏", "三次医療圏"]);
    let ids: Vec<&str> = defs[1..].iter().map(|m| m.identifier.as_str()).collect();
    assert_eq!(ids, vec!["A38a", "A38b", "A38c"]);
    assert_eq!(defs[1].shapefile_matcher, vec!["A38-YY_a.shp".to_string()]);
    assert_eq!(defs[3].original_identifier, "A38");
    let a38 = find_mapping_def_for_entry(&defs, "A38", &vec![]).unwrap();
    assert_eq!(a38.len(), 3);
    assert!(find_mapping_def_for_entry(&defs, "N03", &vec![]).unwrap().is_empty());
}

#[test]
fn interrupted_incomplete_record_is_an_error() {
    let rows = vec![
        row(["大分類", "", "", "", "", "", "", "", ""]),
        row(["1. 国土", "水", "海岸線", "", "", "", "", "", ""]),
        row(["2. 政策区域", "都市", "都市地域", "", "", "", "", "", ""]),
    ];
    match parse_mapping_rows(&rows) {
        Err(MappingError::MissingFields(f)) => assert_eq!(
            f,
            vec!["version", "data_year", "field_mappings", "original_identifier", "identifier"]
                .into_iter()
                .map(|s| s.to_string())
                .collect::<Vec<_>>()
        ),
        Ok(_) => panic!("expected an error"),
    }
}

#[test]
fn rows_before_header_are_ignored() {
    let mut rows = sample_rows();
    rows.remove(1);
    assert!(parse_mapping_rows(&rows).unwrap().is_empty());
}

#[test]
fn cells_are_trimmed() {
    let r = vec![Some("  a ".to_string()), Some("   ".to_string()), None];
    assert_eq!(cell(&r, 0), Some("a".to_string()));
    assert_eq!(cell(&r, 1), None);
    assert_eq!(cell(&r, 2), None);
    assert_eq!(cell(&r, 9), None);
}

#[test]
fn code_table_rows_are_normalized() {
    let rows = vec![
        vec![Some("表".to_string())],
        vec![Some("行政区域コード".to_string()), Some("都道府県名（漢字）".to_string())],
        vec![Some("０１０００".to_string()), Some("北海道".to_string()), None, Some("ﾎｯｶｲﾄﾞｳ".to_string())],
        vec![None, Some(" ".to_string())],
    ];
    let out = admini_boundary_rows(&rows);
    assert_eq!(out.len(), 1);
    assert_eq!(out[0].len(), 4);
    assert_eq!(out[0][0], Some("01000".to_string()));
    assert_eq!(out[0][1], Some("北海道".to_string()));
    assert_eq!(out[0][2], None);
    assert_eq!(out[0][3], Some("ホッカイドウ".to_string()));
}

#[test]
fn single_record_replaced_by_two_rule_outputs() {
    let defs = parse_mapping_rows(&sample_rows()).unwrap();
    let rules = vec![OverrideRule {
        identifier: "A03".to_string(),
        outputs: vec![
            OverrideOutput { identifier: "A03".to_string(), name: "計画区域".to_string(), template: "A03-YY_SYUTO.shp".to_string() },
            OverrideOutput { identifier: "A03_kinki".to_string(), name: "近畿圏".to_string(), template: "A03-YY_KINKI.shp".to_string() },
        ],
    }];
    let v = find_mapping_def_for_entry(&defs, "A03", &rules).unwrap();
    assert_eq!(v.len(), 2);
    assert_eq!(v[0].identifier, "A03");
    assert_eq!(v[1].identifier, "A03_kinki");
    assert_eq!(v[1].original_identifier, "A03");
    assert!(v[1].shapefile_name_regex[0].is_match("d/A03-03_KINKI.dbf"));
    assert!(!v[1].shapefile_name_regex[0].is_match("d/A03-03_SYUTO.dbf"));
    assert_eq!(v[1].field_mappings.len(), 2);
    let a38_rules = vec![OverrideRule { identifier: "A38".to_string(), outputs: vec![] }];
    assert_eq!(find_mapping_def_for_entry(&defs, "A38", &a38_rules).unwrap().len(), 3);
}
