use jpksj_to_sql::conversion::{
    bytes_after_successful, choose_encoding, create_vrt, encoding_from_dump, has_layer_args,
    postgres_load_args, file_load_args, prune_fields, settle_encoding, tool_outcome,
    ConversionError, VrtSource,
};

fn pairs(v: &[(&str, &str)]) -> Vec<(String, String)> {
    v.iter().map(|(a, b)| (a.to_string(), b.to_string())).collect()
}

fn strings(v: &[&str]) -> Vec<String> {
    v.iter().map(|s| s.to_string()).collect()
}

#[test]
fn pruning_keeps_the_three_present_fields() {
    let fields = pairs(&[("f1", "A_001"), ("f2", "A_002"), ("f3", "A_003"), ("f4", "A_004"), ("f5", "A_005")]);
    let attrs = strings(&["A_005", "A_001", "A_003", "OTHER"]);
    let kept = prune_fields(&fields, &attrs).unwrap();
    assert_eq!(kept, pairs(&[("f1", "A_001"), ("f3", "A_003"), ("f5", "A_005")]));
}

#[test]
fn pruning_everything_is_an_error() {
    let fields = pairs(&[("f1", "A_001"), ("f2", "A_002")]);
    let attrs = strings(&["B_001"]);
    assert!(matches!(prune_fields(&fields, &attrs), Err(ConversionError::NoFields)));
}

#[test]
fn descriptor_needs_sources() {
    let fields = pairs(&[("f1", "A_001")]);
    let attrs = strings(&["A_001"]);
    assert!(matches!(create_vrt("a01", &vec![], &fields, &attrs), Err(ConversionError::NoInput)));
}

#[test]
fn descriptor_unions_all_sources() {
    let sources = vec![
        VrtSource::new("/s/A-01.shp", "CP932".to_string()),
        VrtSource::new("/s/B/A-02.shp", "UTF-8".to_string()),
    ];
    assert_eq!(sources[1].layer_name, "A-02");
    let fields = pairs(&[("名称", "A_001"), ("x", "A_009")]);
    let attrs = strings(&["A_001"]);
    let text = create_vrt("a", &sources, &fields, &attrs).unwrap();
    let f = r#"<Field name="名称" src="A_001" />"#;
    let expected = format!(
        "<OGRVRTDataSource>\n<OGRVRTUnionLayer name=\"a\">\n\
<OGRVRTLayer name=\"A-01\"><SrcDataSource>/s/A-01.shp</SrcDataSource><OpenOptions><OOI key=\"ENCODING\">CP932</OOI></OpenOptions>{f}</OGRVRTLayer>\n\
<OGRVRTLayer name=\"A-02\"><SrcDataSource>/s/B/A-02.shp</SrcDataSource><OpenOptions><OOI key=\"ENCODING\">UTF-8</OOI></OpenOptions>{f}</OGRVRTLayer>\n\
</OGRVRTUnionLayer>\n</OGRVRTDataSource>\n"
    );
    assert_eq!(text, expected);
    assert!(matches!(
        create_vrt("a", &sources, &fields, &strings(&["Z"])),
        Err(ConversionError::NoFields)
    ));
}

#[test]
fn bytes_after_marker() {
    assert_eq!(bytes_after_successful(b"open of x successful yy"), Some(b" yy".to_vec()));
    assert_eq!(bytes_after_successful(b"successful"), Some(vec![]));
    assert_eq!(bytes_after_successful(b"failure"), None);
}

#[test]
fn trial_decoding_picks_code_page_then_utf8() {
    let mut dump = b"INFO: Open of `x.shp' using driver `ESRI Shapefile' successful.\n".to_vec();
    let mut ascii = dump.clone();
    ascii.extend_from_slice(b"W09_001 (String) = abc");
    assert_eq!(encoding_from_dump(&ascii).unwrap(), Some("CP932".to_string()));

    let mut sjis = dump.clone();
    sjis.extend_from_slice(&[0x82, 0xa0, 0x82, 0xa2]);
    assert_eq!(encoding_from_dump(&sjis).unwrap(), Some("CP932".to_string()));

    let mut utf8 = dump.clone();
    utf8.extend_from_slice("あ".as_bytes());
    assert_eq!(encoding_from_dump(&utf8).unwrap(), Some("UTF-8".to_string()));

    dump.extend_from_slice(&[0xff, 0xff]);
    assert_eq!(encoding_from_dump(&dump).unwrap(), None);

    assert!(matches!(encoding_from_dump(b"no marker"), Err(ConversionError::OpenFailed)));
}

#[test]
fn encoding_choice_order() {
    assert_eq!(choose_encoding(true, true), Some("CP932".to_string()));
    assert_eq!(choose_encoding(false, true), Some("UTF-8".to_string()));
    assert_eq!(choose_encoding(false, false), None);
}

#[test]
fn declared_encoding_wins_unless_empty() {
    assert_eq!(settle_encoding(Some("CP932".to_string()), None).unwrap(), "CP932");
    assert_eq!(settle_encoding(Some("".to_string()), Some("UTF-8".to_string())).unwrap(), "UTF-8");
    assert_eq!(settle_encoding(None, Some("CP932".to_string())).unwrap(), "CP932");
    assert!(matches!(settle_encoding(None, None), Err(ConversionError::EncodingUndetermined)));
}

#[test]
fn tool_arguments() {
    assert_eq!(
        postgres_load_args("/tmp/vrt/n03.vrt", "host=db"),
        strings(&[
            "-f", "PostgreSQL", "PG:host=db", "-lco", "GEOM_TYPE=geometry", "-lco", "OVERWRITE=YES",
            "-lco", "GEOMETRY_NAME=geom", "-nlt", "PROMOTE_TO_MULTI", "--config", "PG_USE_COPY=YES",
            "/tmp/vrt/n03.vrt"
        ])
    );
    assert_eq!(
        file_load_args("v.vrt", "GPKG", "/out/n03.gpkg"),
        strings(&["-f", "GPKG", "-overwrite", "-nlt", "PROMOTE_TO_MULTI", "-lco", "GEOMETRY_NAME=geom", "/out/n03.gpkg", "v.vrt"])
    );
    assert_eq!(
        has_layer_args("host=db", "N03_Pref"),
        strings(&["-if", "postgresql", "PG:host=db", "-sql", "SELECT 1 FROM \"n03_pref\" LIMIT 1"])
    );
}

#[test]
fn failed_tool_run_keeps_stderr() {
    assert!(tool_outcome(true, String::new()).is_ok());
    match tool_outcome(false, "boom".to_string()) {
        Err(ConversionError::ToolInvocationFailed { stderr }) => assert_eq!(stderr, "boom"),
        _ => panic!("expected a failure"),
    }
}
