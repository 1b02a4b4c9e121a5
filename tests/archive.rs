use jpksj_to_sql::archive::{
    archive_dir, entry_action, entry_destination, first_stage, next_stage, normalize_entry_name,
    shapefile_paths, stage_matchers, EntryAction, MatcherStage,
};
use jpksj_to_sql::catalog::Dataset;
use jpksj_to_sql::mapping::resolve;
use jpksj_to_sql::template::NamePattern;

#[test]
fn separators_are_normalized() {
    assert_eq!(normalize_entry_name("a\\b\\c.shp"), "a/b/c.shp");
    assert_eq!(normalize_entry_name("plain.shp"), "plain.shp");
}

#[test]
fn deny_listed_entries_are_never_extracted() {
    let any = vec![NamePattern::any_sidecar()];
    assert_eq!(entry_action("N08-21_GML/utf8/N08-21.shp", &any), EntryAction::Skip);
    assert_eq!(entry_action("N08-21_GML/utf8/N08-21.dbf", &any), EntryAction::Skip);
    assert_eq!(entry_action("N08-21_GML/N08-21.shp", &any), EntryAction::Extract);
    assert_eq!(entry_action("N08-21_GML/shift-jis/N08-21.shp", &any), EntryAction::Extract);
}

#[test]
fn nested_archives_are_descended() {
    let p = vec![NamePattern::from_template("A-YY.shp")];
    assert_eq!(entry_action("inner/sub.zip", &p), EntryAction::Recurse);
    assert_eq!(entry_action("N08-21_GML/utf8/sub.zip", &p), EntryAction::Skip);
    assert_eq!(entry_action("inner/A-12.shp", &p), EntryAction::Extract);
    assert_eq!(entry_action("inner/B-12.shp", &p), EntryAction::Skip);
    assert_eq!(entry_action("readme.txt", &p), EntryAction::Skip);
}

#[test]
fn nested_archive_directories() {
    let outer = archive_dir("./tmp/shp", "/data/N08-21_GML.zip");
    assert_eq!(outer, "./tmp/shp/N08-21_GML");
    let nested = entry_destination(&outer, "N08-21_GML/pref.zip");
    assert_eq!(nested, "./tmp/shp/N08-21_GML/N08-21_GML/pref.zip");
    let inner = archive_dir(&outer, &nested);
    assert_eq!(inner, "./tmp/shp/N08-21_GML/pref");
    assert_eq!(entry_destination(&inner, "a.shp"), "./tmp/shp/N08-21_GML/pref/a.shp");
}

#[test]
fn only_shp_files_are_returned() {
    let paths: Vec<String> = ["a/x.shp", "a/x.dbf", "a/.shp", "b/y.SHP", "c.d/e", "z.shp"]
        .iter()
        .map(|s| s.to_string())
        .collect();
    assert_eq!(
        shapefile_paths(&paths),
        vec!["a/x.shp".to_string(), "b/y.SHP".to_string(), "z.shp".to_string()]
    );
}

#[test]
fn matchers_widen_when_nothing_is_found() {
    assert_eq!(first_stage(), MatcherStage::Precise);
    assert_eq!(next_stage(MatcherStage::Precise, "A33", 0), Some(MatcherStage::Widened));
    assert_eq!(next_stage(MatcherStage::Widened, "A33", 0), Some(MatcherStage::CatchAll));
    assert_eq!(next_stage(MatcherStage::CatchAll, "A33", 0), None);
    assert_eq!(next_stage(MatcherStage::Precise, "A30a5", 0), Some(MatcherStage::CatchAll));
    assert_eq!(next_stage(MatcherStage::Precise, "A33", 4), None);
    assert_eq!(next_stage(MatcherStage::Widened, "A33", 2), None);
    assert_eq!(next_stage(MatcherStage::CatchAll, "A30a5", 0), None);
}

#[test]
fn matchers_of_each_stage() {
    let d = Dataset {
        identifier: "A33".to_string(),
        name: "土砂災害警戒区域".to_string(),
        category1_name: String::new(),
        category2_name: String::new(),
        description: String::new(),
        version: String::new(),
        data_year: String::new(),
        usage: String::new(),
        source_url: String::new(),
        variants: vec![],
        attributes: vec![],
        zip_file_paths: vec![],
    };
    let m = &resolve(&d, &vec![]).unwrap()[0];
    let w = stage_matchers(MatcherStage::Widened, m);
    assert!(w.iter().any(|p| p.is_match("A33-16_01/A33-16_01Polygon.shp")));
    assert!(w.iter().any(|p| p.is_match("A33-16_01/A33-16_01Plygon.dbf")));
    assert!(!w.iter().any(|p| p.is_match("A33-16_01/A33-16_01Line.shp")));
    let c = stage_matchers(MatcherStage::CatchAll, m);
    assert!(c[0].is_match("anything/at/all.prj"));
    let p = stage_matchers(MatcherStage::Precise, m);
    assert_eq!(p.len(), m.shapefile_name_regex.len());
}

use jpksj_to_sql::archive::{is_archive_entry, plan_copies, ArchiveEntry, ArchiveListing};

fn file(name: &str) -> ArchiveEntry {
    ArchiveEntry::File(name.to_string())
}

#[test]
fn nested_three_levels_every_match_planned() {
    let innermost = ArchiveListing { entries: vec![file("deep/A-01.shp"), file("deep/A-01.dbf"), file("x.txt")] };
    let middle = ArchiveListing {
        entries: vec![file("A-02.shp"), ArchiveEntry::Nested("lvl3.zip".to_string(), innermost)],
    };
    let outer = ArchiveListing {
        entries: vec![ArchiveEntry::Nested("sub\\lvl2.zip".to_string(), middle), file("A-03.shx")],
    };
    let m = vec![NamePattern::from_template("A-YY.shp")];
    let plan = plan_copies(&outer, &m, "t/outer", "in/outer.zip");
    let got: Vec<(String, usize, String)> =
        plan.into_iter().map(|c| (c.archive, c.index, c.dest)).collect();
    assert_eq!(
        got,
        vec![
            ("t/outer/sub/lvl2.zip".to_string(), 0, "t/outer/lvl2/A-02.shp".to_string()),
            ("t/outer/lvl2/lvl3.zip".to_string(), 0, "t/outer/lvl2/lvl3/deep/A-01.shp".to_string()),
            ("t/outer/lvl2/lvl3.zip".to_string(), 1, "t/outer/lvl2/lvl3/deep/A-01.dbf".to_string()),
            ("in/outer.zip".to_string(), 1, "t/outer/A-03.shx".to_string()),
        ]
    );
}

#[test]
fn nested_deny_listed_entries_not_planned() {
    let inner = ArchiveListing {
        entries: vec![file("N08-21_GML/utf8/N08-21.shp"), file("N08-21_GML/N08-21.shp")],
    };
    let outer = ArchiveListing {
        entries: vec![file("N08-21_GML/utf8/N08-21.dbf"), ArchiveEntry::Nested("inner.zip".to_string(), inner)],
    };
    let plan = plan_copies(&outer, &vec![NamePattern::any_sidecar()], "t/N08", "N08.zip");
    assert_eq!(plan.len(), 1);
    assert_eq!(plan[0].dest, "t/N08/inner/N08-21_GML/N08-21.shp");
    assert!(plan.iter().all(|c| !c.dest.contains("/utf8/")));
    let denied_nested = ArchiveListing {
        entries: vec![
            ArchiveEntry::Nested(
                "N08-21_GML/utf8/dup.zip".to_string(),
                ArchiveListing { entries: vec![file("N08-21.shp")] },
            ),
            file("N08-21.dbf"),
        ],
    };
    let plan = plan_copies(&denied_nested, &vec![NamePattern::any_sidecar()], "t/N08", "N08.zip");
    assert_eq!(plan.len(), 1);
    assert_eq!(plan[0].dest, "t/N08/N08-21.dbf");
    assert!(is_archive_entry("a/b.zip"));
    assert!(!is_archive_entry("a/b.ZIP"));
}
