use jpksj_to_sql::years::{extract_year_from_field, match_year_range, parse_year_range};

#[test]
fn test_extract_year_from_field() {
    assert_eq!(extract_year_from_field("2006年（平成18年）"), Some(2006));
    assert_eq!(extract_year_from_field("2021年度"), Some(2021));
    assert_eq!(extract_year_from_field("平成18年"), None);
    assert_eq!(extract_year_from_field(""), None);
}

#[test]
fn test_debug_regex() {
    let test_text = "データ基準年：2015年以前（平成27年～18年,12年,7年,昭和60年,55年,50年,45年,40年,35年,30年,25年,大正9年）版のデータ詳細";
    let captures = match_year_range(test_text);
    println!("Captures: {:?}", captures);
    if let Some(caps) = captures {
        println!("Group {}: '{}'", 2, caps.first_year);
        if let Some(second) = caps.second_year {
            println!("Group {}: '{}'", 4, second);
        }
        if caps.earlier {
            println!("Group {}: '{}'", 6, "以前");
        }
    }
}

#[test]
fn test_parse_year_range() {
    assert_eq!(parse_year_range("最新のデータは2021年"), Some(2021..=2021));
    assert_eq!(parse_year_range("データ基準年：2020年"), Some(2020..=2020));

    assert_eq!(
        parse_year_range("データ作成年度：2020年度（令和2年度）～2014年度（平成26年度）版"),
        Some(2014..=2020)
    );
    assert_eq!(
        parse_year_range("データ作成年度：2013年度（平成25年度）版"),
        Some(2013..=2013)
    );
    assert_eq!(parse_year_range("invalid text"), None);

    assert_eq!(
        parse_year_range("データ基準年：2015年以前（平成27年～18年,12年,7年,昭和60年,55年,50年,45年,40年,35年,30年,25年,大正9年）版のデータ詳細"),
        Some(0..=2015)
    );
}

#[test]
fn year_field_too_large_for_u32_is_rejected() {
    assert_eq!(extract_year_from_field("99999999999年"), None);
    assert_eq!(extract_year_from_field("0002006年"), Some(2006));
    assert_eq!(extract_year_from_field("2006"), None);
}

#[test]
fn latest_label_with_made_year_and_spaces() {
    assert_eq!(
        parse_year_range("最新のデータはデータ作成年度 2021年度（令和3年度）版です"),
        Some(2021..=2021)
    );
}

#[test]
fn label_found_after_other_text() {
    let m = match_year_range("選択したデータ項目は データ基準年：2019年").unwrap();
    assert_eq!(m.first_year, 2019);
    assert_eq!(m.second_year, None);
    assert!(!m.earlier);
}

#[test]
fn range_label_records_second_year() {
    let m = match_year_range("データ作成年度：2020年度～2014年度").unwrap();
    assert_eq!(m.first_year, 2020);
    assert_eq!(m.second_year, Some(2014));
}

use jpksj_to_sql::years::{extract_multiple_years, parse_recency};

#[test]
fn test_extract_multiple_years() {
    let text = "データ作成年度：2013年度（平成25年度）、2014年度（平成26年度）、2015年度（平成27年度）";
    let years = extract_multiple_years(text);
    assert_eq!(years, Some(vec![2013, 2014, 2015]));
}

#[test]
fn multiple_years_none_and_long_digit_runs() {
    assert_eq!(extract_multiple_years("平成25年度"), None);
    assert_eq!(extract_multiple_years("12345年と2020年"), Some(vec![2345, 2020]));
}

#[test]
fn recency_prefers_calendar_year() {
    assert_eq!(parse_recency(&Some("2006年（平成18年）".to_string()), &Some("2007年度".to_string())), Some(2006));
    assert_eq!(parse_recency(&Some("平成18年".to_string()), &Some("2007年度".to_string())), Some(2007));
    assert_eq!(parse_recency(&None, &None), None);
}
