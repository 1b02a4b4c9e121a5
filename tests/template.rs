use jpksj_to_sql::template::{matches_any, split_shapefile_matcher, NamePattern};

#[test]
fn substring_of_longer_name_is_not_a_match() {
    let p = NamePattern::from_template("A01-YY.shp");
    assert!(!p.is_match("foo/BAD_A01-11.shp"));
    assert!(p.is_match("foo/A01-11.shp"));
    assert!(p.is_match("A01-11.shp"));
}

#[test]
fn filled_template_matches_with_any_sidecar() {
    let p = NamePattern::from_template("A30a5-YY_mmmm_SedimentDisasterAndSnowslide.shp");
    for ext in [".shp", ".cpg", ".dbf", ".prj", ".qmd", ".shx", ".SHP", ".Dbf"] {
        let name = format!("A30a5-11_4939_SedimentDisasterAndSnowslide{}", ext);
        assert!(p.is_match(&name), "{}", name);
    }
    assert!(!p.is_match("A30a5-11_4939_SedimentDisasterAndSnowslide.txt"));
}

#[test]
fn extra_or_missing_digit_is_rejected() {
    let p = NamePattern::from_template("P23a-YY_PP.shp");
    assert!(p.is_match("P23-12_38_GML/P23a-12_38.shp"));
    assert!(!p.is_match("P23-12_38_GML/P23a-123_38.shp"));
    assert!(!p.is_match("P23-12_38_GML/P23a-12_381.shp"));
    assert!(!p.is_match("P23-12_38_GML/P23a-1_38.shp"));
    assert!(!p.is_match("P23-12_38_GML/P23a-12_3.shp"));
    assert!(!p.is_match("P23-12_38_GML/P23a-1a_38.shp"));
}

#[test]
fn every_token_width() {
    let p = NamePattern::from_template("X-YY-MM-PP-CCCCC-AA-mmmm.shp");
    assert!(p.is_match("X-24-01-13-13101-01-5339.shp"));
    assert!(!p.is_match("X-24-01-13-1310-01-5339.shp"));
    let q = NamePattern::from_template("N03-YYY.shp");
    assert!(q.is_match("N03-12Y.shp"));
    assert!(!q.is_match("N03-123.shp"));
}

#[test]
fn template_without_shp_extension_and_with_spaces() {
    let p = NamePattern::from_template("  W09-YY \n");
    assert!(p.is_match("W09-05.dbf"));
    let q = NamePattern::from_template("W09-YY.SHP");
    assert!(q.is_match("dir/W09-05.shx"));
}

#[test]
fn parenthesised_text_in_template_stays_literal() {
    let p = NamePattern::from_template("A（x）-YY.shp");
    assert!(p.is_match("A（x）-12.shp"));
    assert!(!p.is_match("A-12.shp"));
}

#[test]
fn any_sidecar_pattern() {
    let p = NamePattern::any_sidecar();
    assert!(p.is_match("x/y.cpg"));
    assert!(p.is_match(".shp"));
    assert!(!p.is_match("x/y.txt"));
    assert!(!p.is_match("shp"));
}

#[test]
fn widened_polygon_pattern() {
    let p = NamePattern::ending_with("Polygon");
    assert!(p.is_match("A33-16_01_Polygon.shp"));
    assert!(p.is_match("xPolygon.prj"));
    assert!(!p.is_match("A33-16_01_Plygon.shp"));
    assert!(!p.is_match("A33-16_01_Point.shp"));
}

#[test]
fn any_of_several_patterns() {
    let ps = vec![NamePattern::from_template("A-YY.shp"), NamePattern::from_template("B-PP.shp")];
    assert!(matches_any(&ps, "d/B-01.shp"));
    assert!(matches_any(&ps, "A-99.dbf"));
    assert!(!matches_any(&ps, "C-01.shp"));
    assert!(!matches_any(&Vec::new(), "A-99.dbf"));
}

#[test]
fn hint_splits_into_templates() {
    let t = split_shapefile_matcher("A38-YY_PP_a.shp\r\n\r\n  A38b-YY.shp  \n");
    assert_eq!(t, vec!["A38-YY_a.shp".to_string(), "A38b-YY.shp".to_string()]);
    assert!(split_shapefile_matcher(" \n ").is_empty());
}
