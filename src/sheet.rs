//! The spreadsheet form of the mapping catalog: rows of cells, one record
//! spread over consecutive rows, a record ending where the next begins.
//! Columns: 0 major category, 1 minor category, 2 name, 3 version, 4 data
//! year, 5 naming templates, 6 field name, 7 attribute name, 8 identifier.

use crate::mapping::{
    display_name, format_name, matchers_of, missing_fields, one_name, pairs_view, strings_view,
    MappingError, MappingView, ShapefileMetadata, ShapefileMetadataBuilder,
};
use crate::output::is_word;
use crate::template::{hint_templates, split_shapefile_matcher};
use crate::text::{chars_of, string_of, trim, trim_exec};
use vstd::prelude::*;

verus! {

pub struct BuilderView {
    pub cat1: Option<Seq<char>>,
    pub cat2: Option<Seq<char>>,
    pub name: Option<Seq<char>>,
    pub version: Option<Seq<char>>,
    pub data_year: Option<Seq<char>>,
    pub templates: Option<Seq<Seq<char>>>,
    pub fields: Option<Seq<(Seq<char>, Seq<char>)>>,
    pub original_identifier: Option<Seq<char>>,
    pub identifier: Option<Seq<char>>,
}

pub open spec fn ov(o: Option<String>) -> Option<Seq<char>> {
    match o {
        Some(s) => Some(s@),
        None => None,
    }
}

pub open spec fn bview(b: ShapefileMetadataBuilder) -> BuilderView {
    BuilderView {
        cat1: ov(b.cat1),
        cat2: ov(b.cat2),
        name: ov(b.name),
        version: ov(b.version),
        data_year: ov(b.data_year),
        templates: match b.shapefile_matcher {
            Some(v) => Some(strings_view(v@)),
            None => None,
        },
        fields: match b.field_mappings {
            Some(v) => Some(pairs_view(v@)),
            None => None,
        },
        original_identifier: ov(b.original_identifier),
        identifier: ov(b.identifier),
    }
}

pub open spec fn empty_builder() -> BuilderView {
    BuilderView {
        cat1: None,
        cat2: None,
        name: None,
        version: None,
        data_year: None,
        templates: None,
        fields: None,
        original_identifier: None,
        identifier: None,
    }
}

/// The text of cell `k`: trimmed, and absent when empty or missing.
pub open spec fn cell_of(row: Seq<Option<String>>, k: int) -> Option<Seq<char>> {
    if 0 <= k < row.len() {
        match row[k] {
            Some(s) => if trim(s@).len() > 0 {
                Some(trim(s@))
            } else {
                None
            },
            None => None,
        }
    } else {
        None
    }
}

pub open spec fn prefix4(s: Seq<char>) -> Seq<char> {
    if s.len() <= 4 {
        s
    } else {
        s.subrange(0, 4)
    }
}

pub open spec fn has_prefix(s: Seq<char>, p: Seq<char>) -> bool {
    p.len() <= s.len() && s.subrange(0, p.len() as int) == p
}

/// The identifier a row names: column 8, except that the medical areas
/// (A38) are told apart by the first four characters of the attribute name.
pub open spec fn identifier_of_row(row: Seq<Option<String>>) -> Option<Seq<char>> {
    match cell_of(row, 8) {
        Some(id) => if id == "A38"@ {
            match cell_of(row, 7) {
                Some(m) => Some(prefix4(m)),
                None => Some(id),
            }
        } else {
            Some(id)
        },
        None => None,
    }
}

/// The naming templates that a row lists, if it lists any.
pub open spec fn row_templates(row: Seq<Option<String>>) -> Option<Seq<Seq<char>>> {
    match cell_of(row, 5) {
        Some(s) => if hint_templates(s).len() > 0 {
            Some(hint_templates(s))
        } else {
            None
        },
        None => None,
    }
}

/// A row begins a new record when it names other categories, other
/// templates, or (for the medical areas) an attribute of another area.
pub open spec fn starts_new(b: BuilderView, row: Seq<Option<String>>) -> bool {
    let c0 = cell_of(row, 0);
    let c1 = cell_of(row, 1);
    let by_category = c0 is Some && c1 is Some && ((b.cat1 is Some && b.cat1 != c0) || (
    b.cat2 is Some && b.cat2 != c1));
    let by_templates = row_templates(row) is Some && b.templates is Some && b.templates
        != row_templates(row);
    let by_area = match (cell_of(row, 8), cell_of(row, 7), b.fields) {
        (Some(id), Some(m), Some(f)) => id == "A38"@ && f.len() > 0 && !has_prefix(
            m,
            prefix4(f.last().1),
        ),
        _ => false,
    };
    by_category || by_templates || by_area
}

pub open spec fn name_override(id: Seq<char>) -> Option<Seq<char>> {
    if id == "A38a"@ {
        Some("一次医療圏"@)
    } else if id == "A38b"@ {
        Some("二次医療圏"@)
    } else if id == "A38c"@ {
        Some("三次医療圏"@)
    } else {
        None
    }
}

pub open spec fn or_keep(c: Option<Seq<char>>, old: Option<Seq<char>>) -> Option<Seq<char>> {
    match c {
        Some(x) => Some(x),
        None => old,
    }
}

pub open spec fn first_set(c: Option<Seq<char>>, old: Option<Seq<char>>) -> Option<Seq<char>> {
    match old {
        Some(x) => Some(x),
        None => c,
    }
}

/// What a row adds to the record it belongs to.
pub open spec fn apply_row_spec(b: BuilderView, row: Seq<Option<String>>) -> BuilderView {
    let id = identifier_of_row(row);
    let overridden = match id {
        Some(x) => or_keep(name_override(x), b.name),
        None => b.name,
    };
    let name = match cell_of(row, 2) {
        Some(n) => first_set(Some(display_name(n)), overridden),
        None => overridden,
    };
    BuilderView {
        cat1: or_keep(cell_of(row, 0), b.cat1),
        cat2: or_keep(cell_of(row, 1), b.cat2),
        name,
        version: or_keep(cell_of(row, 3), b.version),
        data_year: or_keep(cell_of(row, 4), b.data_year),
        templates: match cell_of(row, 5) {
            Some(s) => Some(
                match b.templates {
                    Some(t) => t,
                    None => Seq::empty(),
                } + hint_templates(s),
            ),
            None => b.templates,
        },
        fields: match (cell_of(row, 6), cell_of(row, 7)) {
            (Some(f), Some(s)) => Some(
                match b.fields {
                    Some(v) => v,
                    None => Seq::empty(),
                }.push((f, s)),
            ),
            _ => b.fields,
        },
        original_identifier: first_set(cell_of(row, 8), b.original_identifier),
        identifier: first_set(id, b.identifier),
    }
}

pub open spec fn view_complete(b: BuilderView) -> bool {
    b.cat1 is Some && b.cat2 is Some && b.name is Some && b.version is Some && b.data_year is Some
        && b.fields is Some && b.original_identifier is Some && b.identifier is Some
}

pub open spec fn view_templates(b: BuilderView) -> Seq<Seq<char>> {
    match b.templates {
        Some(t) => t,
        None => Seq::empty(),
    }
}

pub open spec fn record_of(b: BuilderView) -> MappingView {
    MappingView {
        cat1: b.cat1.unwrap(),
        cat2: b.cat2.unwrap(),
        name: b.name.unwrap(),
        version: b.version.unwrap(),
        data_year: b.data_year.unwrap(),
        templates: view_templates(b),
        matchers: matchers_of(view_templates(b)),
        fields: b.fields.unwrap(),
        original_identifier: b.original_identifier.unwrap(),
        identifier: b.identifier.unwrap(),
    }
}

pub open spec fn view_missing(b: BuilderView) -> Seq<Seq<char>> {
    one_name(b.cat1 is None, "cat1"@) + one_name(b.cat2 is None, "cat2"@) + one_name(
        b.name is None,
        "name"@,
    ) + one_name(b.version is None, "version"@) + one_name(b.data_year is None, "data_year"@)
        + one_name(b.fields is None, "field_mappings"@) + one_name(
        b.original_identifier is None,
        "original_identifier"@,
    ) + one_name(b.identifier is None, "identifier"@)
}

/// The records of the rows from `i` on: rows before the header row (whose
/// first cell is 大分類) are skipped; a record that a new one interrupts
/// must be complete; the last one is kept only when complete.
pub open spec fn scan(rows: Seq<Seq<Option<String>>>, i: int, started: bool, b: BuilderView) -> Result<
    Seq<MappingView>,
    Seq<Seq<char>>,
>
    decreases rows.len() - i,
{
    if i < 0 || i >= rows.len() {
        if started && view_complete(b) {
            Ok(seq![record_of(b)])
        } else {
            Ok(Seq::empty())
        }
    } else if !started {
        scan(rows, i + 1, cell_of(rows[i], 0) == Some("大分類"@), b)
    } else if starts_new(b, rows[i]) {
        if !view_complete(b) {
            Err(view_missing(b))
        } else {
            match scan(rows, i + 1, true, apply_row_spec(empty_builder(), rows[i])) {
                Ok(rest) => Ok(seq![record_of(b)] + rest),
                Err(e) => Err(e),
            }
        }
    } else {
        scan(rows, i + 1, true, apply_row_spec(b, rows[i]))
    }
}

/// The text of cell `k` of a row: trimmed, and absent when empty or missing.
pub fn cell(row: &Vec<Option<String>>, k: usize) -> (r: Option<String>)
    ensures
        ov(r) == cell_of(row@, k as int),
{
    if k < row.len() {
        match &row[k] {
            Some(s) => {
                let t = trim_exec(&chars_of(s.as_str()));
                if t.len() > 0 {
                    Some(string_of(&t))
                } else {
                    None
                }
            },
            None => None,
        }
    } else {
        None
    }
}

fn prefix4_exec(s: &str) -> (r: String)
    ensures
        r@ == prefix4(s@),
{
    let v = chars_of(s);
    if v.len() <= 4 {
        return String::from_str(s);
    }
    let mut out: Vec<char> = Vec::new();
    let mut i: usize = 0;
    while i < 4
        invariant
            v@ == s@,
            v.len() > 4,
            i <= 4,
            out@ == v@.subrange(0, i as int),
        decreases 4 - i,
    {
        out.push(v[i]);
        proof {
            assert(out@ =~= v@.subrange(0, i + 1));
        }
        i = i + 1;
    }
    string_of(&out)
}

fn has_prefix_exec(s: &str, p: &str) -> (r: bool)
    ensures
        r == has_prefix(s@, p@),
{
    let v = chars_of(s);
    let w = chars_of(p);
    let r = crate::text::starts_at_exec(&v, 0, &w);
    proof {
        assert(crate::text::starts_at(v@, 0, w@) == has_prefix(s@, p@));
    }
    r
}

/// The identifier a row names (for the medical areas, the first four
/// characters of the attribute name).
pub fn extract_identifier_from_row(row: &Vec<Option<String>>) -> (r: Option<String>)
    ensures
        ov(r) == identifier_of_row(row@),
{
    match cell(row, 8) {
        Some(id) => {
            if is_word(id.as_str(), "A38") {
                match cell(row, 7) {
                    Some(m) => Some(prefix4_exec(m.as_str())),
                    None => Some(id),
                }
            } else {
                Some(id)
            }
        },
        None => None,
    }
}

fn strings_eq(a: &Vec<String>, b: &Vec<String>) -> (r: bool)
    ensures
        r == (strings_view(a@) == strings_view(b@)),
{
    if a.len() != b.len() {
        proof {
            assert(strings_view(a@).len() != strings_view(b@).len());
        }
        return false;
    }
    let mut i: usize = 0;
    while i < a.len()
        invariant
            a.len() == b.len(),
            i <= a.len(),
            forall|k: int| 0 <= k < i ==> a@[k]@ == b@[k]@,
        decreases a.len() - i,
    {
        if !is_word(a[i].as_str(), b[i].as_str()) {
            proof {
                assert(strings_view(a@)[i as int] != strings_view(b@)[i as int]);
            }
            return false;
        }
        i = i + 1;
    }
    proof {
        assert(strings_view(a@) =~= strings_view(b@));
    }
    true
}

fn row_templates_exec(row: &Vec<Option<String>>) -> (r: Option<Vec<String>>)
    ensures
        match r {
            Some(v) => row_templates(row@) == Some(strings_view(v@)),
            None => row_templates(row@) is None,
        },
{
    match cell(row, 5) {
        Some(s) => {
            let v = split_shapefile_matcher(s.as_str());
            proof {
                assert(strings_view(v@) == v@.map_values(|x: String| x@));
            }
            if v.len() > 0 {
                Some(v)
            } else {
                None
            }
        },
        None => None,
    }
}

/// Whether `row` begins a new record after the record `b`.
pub fn should_start_new_metadata_record(b: &ShapefileMetadataBuilder, row: &Vec<Option<String>>) -> (r:
    bool)
    ensures
        r == starts_new(bview(*b), row@),
{
    let c0 = cell(row, 0);
    let c1 = cell(row, 1);
    let mut by_category = false;
    match (&c0, &c1) {
        (Some(x0), Some(x1)) => {
            let d0 = match &b.cat1 {
                Some(s) => !is_word(s.as_str(), x0.as_str()),
                None => false,
            };
            let d1 = match &b.cat2 {
                Some(s) => !is_word(s.as_str(), x1.as_str()),
                None => false,
            };
            by_category = d0 || d1;
        },
        _ => {},
    }
    let by_templates = match (row_templates_exec(row), &b.shapefile_matcher) {
        (Some(names), Some(t)) => !strings_eq(t, &names),
        _ => false,
    };
    let by_area = match (cell(row, 8), cell(row, 7), &b.field_mappings) {
        (Some(id), Some(m), Some(f)) => {
            if is_word(id.as_str(), "A38") && f.len() > 0 {
                let p = prefix4_exec(f[f.len() - 1].1.as_str());
                proof {
                    assert(pairs_view(f@).last().1 == f@[f.len() - 1].1@);
                }
                !has_prefix_exec(m.as_str(), p.as_str())
            } else {
                false
            }
        },
        _ => false,
    };
    by_category || by_templates || by_area
}

fn name_override_exec(id: &str) -> (r: Option<String>)
    ensures
        ov(r) == name_override(id@),
{
    if is_word(id, "A38a") {
        Some(String::from_str("一次医療圏"))
    } else if is_word(id, "A38b") {
        Some(String::from_str("二次医療圏"))
    } else if is_word(id, "A38c") {
        Some(String::from_str("三次医療圏"))
    } else {
        None
    }
}

fn set_if_some(slot: &mut Option<String>, c: Option<String>)
    ensures
        ov(*final(slot)) == or_keep(ov(c), ov(*old(slot))),
{
    match c {
        Some(x) => {
            *slot = Some(x);
        },
        None => {},
    }
}

fn set_if_none(slot: &mut Option<String>, c: Option<String>)
    ensures
        ov(*final(slot)) == first_set(ov(c), ov(*old(slot))),
{
    if slot.is_none() {
        *slot = c;
    }
}

/// Adds what a row says to the record it belongs to.
pub fn apply_row(b: &mut ShapefileMetadataBuilder, row: &Vec<Option<String>>)
    ensures
        bview(*final(b)) == apply_row_spec(bview(*old(b)), row@),
{
    let ghost b0 = bview(*b);
    let id = extract_identifier_from_row(row);
    set_if_none(&mut b.original_identifier, cell(row, 8));
    match &id {
        Some(x) => {
            let o = name_override_exec(x.as_str());
            set_if_some(&mut b.name, o);
        },
        None => {},
    }
    set_if_none(&mut b.identifier, id);
    match cell(row, 2) {
        Some(n) => set_if_none(&mut b.name, Some(format_name(n.as_str()))),
        None => {},
    }
    set_if_some(&mut b.cat1, cell(row, 0));
    set_if_some(&mut b.cat2, cell(row, 1));
    set_if_some(&mut b.version, cell(row, 3));
    set_if_some(&mut b.data_year, cell(row, 4));
    match cell(row, 5) {
        Some(s) => {
            let mut t = match b.shapefile_matcher.take() {
                Some(t) => t,
                None => Vec::new(),
            };
            let ghost prior = strings_view(t@);
            let mut more = split_shapefile_matcher(s.as_str());
            let ghost mv = strings_view(more@);
            assert(mv == more@.map_values(|x: String| x@));
            t.append(&mut more);
            proof {
                assert(strings_view(t@) =~= prior + mv);
            }
            b.shapefile_matcher = Some(t);
        },
        None => {},
    }
    match (cell(row, 6), cell(row, 7)) {
        (Some(f), Some(s)) => {
            let mut v = match b.field_mappings.take() {
                Some(v) => v,
                None => Vec::new(),
            };
            let ghost prior = pairs_view(v@);
            v.push((f, s));
            proof {
                assert(pairs_view(v@) =~= prior.push((f@, s@)));
            }
            b.field_mappings = Some(v);
        },
        _ => {},
    }
    proof {
        let s = apply_row_spec(b0, row@);
        assert(bview(*b).cat1 == s.cat1);
        assert(bview(*b).cat2 == s.cat2);
        assert(bview(*b).name == s.name);
        assert(bview(*b).version == s.version);
        assert(bview(*b).data_year == s.data_year);
        assert(bview(*b).templates == s.templates);
        assert(bview(*b).fields == s.fields);
        assert(bview(*b).original_identifier == s.original_identifier);
        assert(bview(*b).identifier == s.identifier);
    }
}

pub open spec fn rows_view(rows: Seq<Vec<Option<String>>>) -> Seq<Seq<Option<String>>> {
    rows.map_values(|r: Vec<Option<String>>| r@)
}

/// `done` followed by the records of a scan, or the scan's error.
pub open spec fn after(done: Seq<MappingView>, r: Result<Seq<MappingView>, Seq<Seq<char>>>) -> Result<
    Seq<MappingView>,
    Seq<Seq<char>>,
> {
    match r {
        Ok(rest) => Ok(done + rest),
        Err(e) => Err(e),
    }
}

/// The view of a builder tells the same completeness, missing fields and
/// templates as the builder itself.
proof fn lemma_view_agrees(b: ShapefileMetadataBuilder)
    ensures
        view_agrees(b),
{
}

pub open spec fn view_agrees(b: ShapefileMetadataBuilder) -> bool {
    &&& (crate::mapping::builder_complete(b) <==> view_complete(bview(b)))
    &&& missing_fields(b) == view_missing(bview(b))
    &&& crate::mapping::builder_templates(b) == view_templates(bview(b))
}

proof fn lemma_built_is_record(b: ShapefileMetadataBuilder, m: MappingView)
    requires
        crate::mapping::built(b, m),
        crate::mapping::builder_complete(b),
    ensures
        m == record_of(bview(b)),
{
    lemma_view_agrees(b);
}

/// Reads the records of the catalog spreadsheet from its rows (each cell
/// as the text it holds, if any). Fails when a record that the next one
/// interrupts lacks fields.
pub fn parse_mapping_rows(rows: &Vec<Vec<Option<String>>>) -> (r: Result<
    Vec<ShapefileMetadata>,
    MappingError,
>)
    ensures
        match scan(rows_view(rows@), 0, false, empty_builder()) {
            Ok(ms) => r matches Ok(v) && crate::mapping::mappings_view(v@) == ms,
            Err(e) => r matches Err(MappingError::MissingFields(f)) && strings_view(f@) == e,
        },
{
    let ghost rv = rows_view(rows@);
    let mut out: Vec<ShapefileMetadata> = Vec::new();
    let mut b = ShapefileMetadataBuilder::new();
    let mut started = false;
    let mut i: usize = 0;
    proof {
        assert(bview(b) == empty_builder());
        assert(crate::mapping::mappings_view(out@) =~= Seq::<MappingView>::empty());
        match scan(rv, 0, false, empty_builder()) {
            Ok(ms) => assert(Seq::<MappingView>::empty() + ms =~= ms),
            Err(e) => {},
        }
    }
    while i < rows.len()
        invariant
            rv == rows_view(rows@),
            i <= rows.len(),
            scan(rv, 0, false, empty_builder()) == after(
                crate::mapping::mappings_view(out@),
                scan(rv, i as int, started, bview(b)),
            ),
        decreases rows.len() - i,
    {
        let row = &rows[i];
        let ghost done = crate::mapping::mappings_view(out@);
        proof {
            assert(rv[i as int] == row@);
        }
        if !started {
            started = match cell(row, 0) {
                Some(c) => is_word(c.as_str(), "大分類"),
                None => false,
            };
        } else if should_start_new_metadata_record(&b, row) {
            let prev = b;
            b = ShapefileMetadataBuilder::new();
            let ghost pv = bview(prev);
            proof {
                lemma_view_agrees(prev);
            }
            match prev.finish() {
                Ok(m) => {
                    proof {
                        lemma_built_is_record(prev, m@);
                    }
                    out.push(m);
                    proof {
                        assert(crate::mapping::mappings_view(out@) =~= done.push(record_of(pv)));
                    }
                },
                Err(e) => {
                    return Err(e);
                },
            }
            proof {
                assert(bview(b) == empty_builder());
            }
            apply_row(&mut b, row);
            proof {
                match scan(rv, i + 1, true, bview(b)) {
                    Ok(rest) => {
                        assert(done + (seq![record_of(pv)] + rest) =~= done.push(record_of(pv))
                            + rest);
                    },
                    Err(e) => {},
                }
            }
        } else {
            apply_row(&mut b, row);
        }
        i = i + 1;
    }
    let ghost done = crate::mapping::mappings_view(out@);
    let ghost bv = bview(b);
    proof {
        lemma_view_agrees(b);
    }
    if started {
        match b.finish() {
            Ok(m) => {
                proof {
                    lemma_built_is_record(b, m@);
                }
                out.push(m);
                proof {
                    assert(crate::mapping::mappings_view(out@) =~= done + seq![record_of(bv)]);
                }
            },
            Err(_) => {
                proof {
                    assert(done + Seq::<MappingView>::empty() =~= done);
                }
            },
        }
    } else {
        proof {
            assert(done + Seq::<MappingView>::empty() =~= done);
        }
    }
    Ok(out)
}

/// The NFKC normal form of a string, as unicode-normalization computes it.
pub uninterp spec fn nfkc_of(s: Seq<char>) -> Seq<char>;

/// Relies on `unicode_normalization::UnicodeNormalization::nfkc`: the NFKC
/// form of `s`, which depends on the characters of `s` alone.
#[verifier::external_body]
fn nfkc(s: &str) -> (r: String)
    ensures
        r@ == nfkc_of(s@),
{
    unicode_normalization::UnicodeNormalization::nfkc(s).collect()
}

pub open spec fn code_cell(row: Seq<Option<String>>, k: int) -> Option<Seq<char>> {
    match cell_of(row, k) {
        Some(s) => Some(nfkc_of(s)),
        None => None,
    }
}

/// A row of the administrative-area code table: each cell's text in NFKC
/// form.
pub open spec fn code_row(row: Seq<Option<String>>) -> Seq<Option<Seq<char>>> {
    Seq::new(row.len(), |k: int| code_cell(row, k))
}

pub open spec fn blank(r: Seq<Option<Seq<char>>>) -> bool {
    forall|k: int| 0 <= k < r.len() ==> (#[trigger] r[k]) is None
}

/// The rows of the code table after its header row (first cell
/// 行政区域コード), without blank ones.
pub open spec fn code_rows_from(rows: Seq<Seq<Option<String>>>, i: int, started: bool) -> Seq<
    Seq<Option<Seq<char>>>,
>
    decreases rows.len() - i,
{
    if i < 0 || i >= rows.len() {
        Seq::empty()
    } else if !started {
        code_rows_from(rows, i + 1, cell_of(rows[i], 0) == Some("行政区域コード"@))
    } else if blank(code_row(rows[i])) {
        code_rows_from(rows, i + 1, true)
    } else {
        seq![code_row(rows[i])] + code_rows_from(rows, i + 1, true)
    }
}

pub open spec fn cells_view(r: Seq<Option<String>>) -> Seq<Option<Seq<char>>> {
    r.map_values(|c: Option<String>| ov(c))
}

pub open spec fn table_view(t: Seq<Vec<Option<String>>>) -> Seq<Seq<Option<Seq<char>>>> {
    t.map_values(|r: Vec<Option<String>>| cells_view(r@))
}

fn code_row_exec(row: &Vec<Option<String>>) -> (r: (Vec<Option<String>>, bool))
    ensures
        cells_view(r.0@) == code_row(row@),
        r.1 == blank(code_row(row@)),
{
    let mut out: Vec<Option<String>> = Vec::new();
    let mut all_none = true;
    let mut k: usize = 0;
    while k < row.len()
        invariant
            k <= row.len(),
            cells_view(out@) == code_row(row@).subrange(0, k as int),
            all_none == (forall|j: int| 0 <= j < k ==> (#[trigger] code_row(row@)[j]) is None),
        decreases row.len() - k,
    {
        let ghost prior = cells_view(out@);
        let c = match cell(row, k) {
            Some(s) => Some(nfkc(s.as_str())),
            None => None,
        };
        if c.is_some() {
            all_none = false;
        }
        out.push(c);
        proof {
            assert(cells_view(out@) =~= prior.push(code_row(row@)[k as int]));
            assert(cells_view(out@) =~= code_row(row@).subrange(0, k + 1));
        }
        k = k + 1;
    }
    proof {
        assert(code_row(row@).subrange(0, k as int) =~= code_row(row@));
    }
    (out, all_none)
}

/// The rows of the administrative-area code table, each cell trimmed and in
/// NFKC form, blank rows dropped.
pub fn admini_boundary_rows(rows: &Vec<Vec<Option<String>>>) -> (r: Vec<Vec<Option<String>>>)
    ensures
        table_view(r@) == code_rows_from(rows_view(rows@), 0, false),
{
    let ghost rv = rows_view(rows@);
    let mut out: Vec<Vec<Option<String>>> = Vec::new();
    let mut started = false;
    let mut i: usize = 0;
    assert(table_view(out@) + code_rows_from(rv, 0, false) =~= code_rows_from(rv, 0, false));
    while i < rows.len()
        invariant
            rv == rows_view(rows@),
            i <= rows.len(),
            code_rows_from(rv, 0, false) == table_view(out@) + code_rows_from(
                rv,
                i as int,
                started,
            ),
        decreases rows.len() - i,
    {
        let row = &rows[i];
        proof {
            assert(rv[i as int] == row@);
        }
        if !started {
            started = match cell(row, 0) {
                Some(c) => is_word(c.as_str(), "行政区域コード"),
                None => false,
            };
        } else {
            let (cells, is_blank) = code_row_exec(row);
            if !is_blank {
                let ghost prior = table_view(out@);
                let ghost cv = cells_view(cells@);
                out.push(cells);
                proof {
                    let tail = code_rows_from(rv, i + 1, true);
                    assert(table_view(out@) =~= prior.push(cv));
                    assert(prior + (seq![cv] + tail) =~= table_view(out@) + tail);
                }
            }
        }
        i = i + 1;
    }
    proof {
        assert(table_view(out@) + code_rows_from(rv, i as int, started) =~= table_view(out@));
    }
    out
}

} // verus!
