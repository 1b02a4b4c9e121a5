use jpksj_to_sql::catalog::{Dataset, Scraper};
use jpksj_to_sql::context::{default_tmp, set_tmp, shp_dir, tmp, vrt_dir, vrt_path, Context, ContextError};

#[test]
fn scratch_directory_defaults_and_sets_once() {
    let mut ctx = Context::new();
    assert_eq!(default_tmp(), "./tmp");
    assert_eq!(tmp(&ctx), "./tmp");
    assert_eq!(shp_dir(&ctx), "./tmp/shp");
    assert_eq!(vrt_path(&ctx, "N03_Pref"), "./tmp/vrt/n03_pref.vrt");
    assert_eq!(set_tmp(&mut ctx, "/scratch".to_string()), Ok(()));
    assert_eq!(tmp(&ctx), "/scratch");
    assert_eq!(vrt_dir(&ctx), "/scratch/vrt");
    assert_eq!(set_tmp(&mut ctx, "/other".to_string()), Err(ContextError::AlreadySet));
    assert_eq!(tmp(&ctx), "/scratch");
}

#[test]
fn scraper_filter() {
    let all = Scraper { skip_dl: false, filter_identifiers: None, year: None };
    assert!(all.accepts("N03", "商用可"));
    assert!(!all.accepts("N03", "非商用"));
    let some = Scraper {
        skip_dl: true,
        filter_identifiers: Some(vec!["N03".to_string(), "A38".to_string()]),
        year: Some(vec![2020]),
    };
    assert!(some.accepts("A38", ""));
    assert!(!some.accepts("C28", ""));
}

#[test]
fn dataset_identifier() {
    let d = Dataset {
        identifier: "P23".to_string(),
        name: String::new(),
        category1_name: String::new(),
        category2_name: String::new(),
        description: String::new(),
        version: String::new(),
        data_year: String::new(),
        usage: String::new(),
        source_url: String::new(),
        variants: vec![],
        attributes: vec![],
        zip_file_paths: vec![],
    };
    assert_eq!(d.identifier(), "P23");
    assert_eq!(d.display(), "Dataset identifier=P23 url=");
}
