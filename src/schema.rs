//! The schema of a written output and the metadata record that describes
//! it to users: column types, the surrogate key, multi-part geometry, and
//! the catalog's descriptions, code lists and references.

use crate::catalog::{AttributeInfo, Dataset, RefType};
use crate::conversion::ConversionError;
use crate::mapping::ShapefileMetadata;
use crate::output::is_word;
use crate::text::{chars_of, starts_at, starts_at_exec};
use vstd::prelude::*;

verus! {

/// One column of a written output.
#[derive(Clone, Debug)]
pub struct ColumnSchema {
    pub name: String,
    pub data_type: String,
    pub geometry_type: Option<String>,
    pub srid: Option<u32>,
}

/// The columns of a written output, in order.
#[derive(Clone, Debug)]
pub struct TableSchema {
    pub columns: Vec<ColumnSchema>,
}

/// What the conversion tool reports of a written layer: its fields (name
/// and the tool's type name), its geometry column and type, and its SRID.
#[derive(Clone, Debug)]
pub struct LayerInfo {
    pub fields: Vec<(String, String)>,
    pub geometry_column: String,
    pub geometry_type: String,
    pub srid: Option<u32>,
}

/// The column type for one of the tool's field type names.
pub open spec fn column_type_for(t: Seq<char>) -> Seq<char> {
    if t == "Integer"@ {
        "integer"@
    } else if t == "Integer64"@ {
        "bigint"@
    } else if t == "Real"@ {
        "double precision"@
    } else if t == "Date"@ {
        "date"@
    } else if t == "DateTime"@ {
        "timestamp"@
    } else if t == "Time"@ {
        "time"@
    } else if t == "Binary"@ {
        "bytea"@
    } else {
        "varchar"@
    }
}

/// The multi-part form of a geometry type.
pub open spec fn multi_of(g: Seq<char>) -> Seq<char> {
    if g == "Point"@ {
        "MultiPoint"@
    } else if g == "LineString"@ {
        "MultiLineString"@
    } else if g == "Polygon"@ {
        "MultiPolygon"@
    } else {
        g
    }
}

pub fn column_type(t: &str) -> (r: String)
    ensures
        r@ == column_type_for(t@),
{
    if is_word(t, "Integer") {
        String::from_str("integer")
    } else if is_word(t, "Integer64") {
        String::from_str("bigint")
    } else if is_word(t, "Real") {
        String::from_str("double precision")
    } else if is_word(t, "Date") {
        String::from_str("date")
    } else if is_word(t, "DateTime") {
        String::from_str("timestamp")
    } else if is_word(t, "Time") {
        String::from_str("time")
    } else if is_word(t, "Binary") {
        String::from_str("bytea")
    } else {
        String::from_str("varchar")
    }
}

pub fn promote_to_multi(g: &str) -> (r: String)
    ensures
        r@ == multi_of(g@),
{
    if is_word(g, "Point") {
        String::from_str("MultiPoint")
    } else if is_word(g, "LineString") {
        String::from_str("MultiLineString")
    } else if is_word(g, "Polygon") {
        String::from_str("MultiPolygon")
    } else {
        String::from_str(g)
    }
}

/// The surrogate key that heads every schema.
pub open spec fn is_key_column(c: ColumnSchema) -> bool {
    c.name@ == "ogc_fid"@ && c.data_type@ == "integer"@ && c.geometry_type is None && c.srid is None
}

/// The schema of a layer: the surrogate key, then each field with its
/// column type, then the geometry column with the multi-part type.
pub open spec fn schema_of(info: LayerInfo, cols: Seq<ColumnSchema>) -> bool {
    let n = info.fields.len();
    &&& cols.len() == n + 2
    &&& is_key_column(cols[0])
    &&& forall|i: int|
        0 <= i < n ==> (#[trigger] cols[i + 1]).name@ == info.fields@[i].0@ && cols[i
            + 1].data_type@ == column_type_for(info.fields@[i].1@) && cols[i + 1].geometry_type is None
            && cols[i + 1].srid is None
    &&& cols[n + 1].name@ == info.geometry_column@
    &&& cols[n + 1].data_type@ == "geometry"@
    &&& cols[n + 1].geometry_type matches Some(g) && g@ == multi_of(info.geometry_type@)
    &&& cols[n + 1].srid == info.srid
}

/// The schema of a written layer; fails when the tool reported none.
pub fn introspect_schema(info: Option<LayerInfo>) -> (r: Result<TableSchema, ConversionError>)
    ensures
        match info {
            None => r matches Err(ConversionError::SchemaIntrospectionFailed),
            Some(l) => r matches Ok(s) && schema_of(l, s.columns@),
        },
{
    let info = match info {
        Some(i) => i,
        None => return Err(ConversionError::SchemaIntrospectionFailed),
    };
    let mut cols: Vec<ColumnSchema> = Vec::new();
    cols.push(
        ColumnSchema {
            name: String::from_str("ogc_fid"),
            data_type: String::from_str("integer"),
            geometry_type: None,
            srid: None,
        },
    );
    let mut i: usize = 0;
    while i < info.fields.len()
        invariant
            i <= info.fields.len(),
            cols.len() == i + 1,
            is_key_column(cols@[0]),
            forall|k: int|
                0 <= k < i ==> (#[trigger] cols@[k + 1]).name@ == info.fields@[k].0@ && cols@[k
                    + 1].data_type@ == column_type_for(info.fields@[k].1@) && cols@[k
                    + 1].geometry_type is None && cols@[k + 1].srid is None,
        decreases info.fields.len() - i,
    {
        let c = ColumnSchema {
            name: info.fields[i].0.clone(),
            data_type: column_type(info.fields[i].1.as_str()),
            geometry_type: None,
            srid: None,
        };
        cols.push(c);
        i = i + 1;
    }
    let g = ColumnSchema {
        name: info.geometry_column.clone(),
        data_type: String::from_str("geometry"),
        geometry_type: Some(promote_to_multi(info.geometry_type.as_str())),
        srid: info.srid,
    };
    cols.push(g);
    Ok(TableSchema { columns: cols })
}

/// A column that refers to a column of another table.
#[derive(Clone, Debug)]
pub struct ForeignKeyRef {
    pub foreign_table: String,
    pub foreign_column: String,
}

/// One value of a coded column and what it means.
#[derive(Clone, Debug)]
pub struct EnumValue {
    pub value: String,
    pub desc: Option<String>,
}

#[derive(Clone, Debug)]
pub struct ColumnMetadata {
    pub name: String,
    pub desc: Option<String>,
    pub data_type: String,
    pub foreign_key: Option<ForeignKeyRef>,
    pub enum_values: Option<Vec<EnumValue>>,
}

/// What a loaded table is, for the metadata sink.
#[derive(Clone, Debug)]
pub struct TableMetadata {
    pub name: String,
    pub desc: Option<String>,
    pub source: Option<String>,
    pub source_url: Option<String>,
    pub license: Option<String>,
    pub primary_key: Option<String>,
    pub columns: Vec<ColumnMetadata>,
}

/// The first attribute whose readable name is `name`.
pub open spec fn attr_index_from(attrs: Seq<AttributeInfo>, name: Seq<char>, i: int) -> Option<int>
    decreases attrs.len() - i,
{
    if i < 0 || i >= attrs.len() {
        None
    } else if attrs[i].readable_name@ == name {
        Some(i)
    } else {
        attr_index_from(attrs, name, i + 1)
    }
}

pub open spec fn contains_text(s: Seq<char>, k: Seq<char>) -> bool {
    exists|i: int| starts_at(s, i, k)
}

/// An attribute coded by the administrative-area code list.
pub open spec fn is_admin_code(a: AttributeInfo) -> bool {
    a.type_ref_url matches Some(u) && contains_text(u@, "AdminiBoundary_CD.xlsx"@)
}

pub open spec fn enum_view(v: Seq<EnumValue>) -> Seq<(Seq<char>, Option<Seq<char>>)> {
    v.map_values(|e: EnumValue| (e.value@, match e.desc {
        Some(d) => Some(d@),
        None => None,
    }))
}

/// The values of a coded attribute: each constant without a meaning, or
/// each code with its meaning.
pub open spec fn enum_values_of(r: Option<RefType>) -> Option<Seq<(Seq<char>, Option<Seq<char>>)>> {
    match r {
        None => None,
        Some(RefType::Enum(v)) => Some(v@.map_values(|s: String| (s@, None::<Seq<char>>))),
        Some(RefType::Code(p)) => Some(
            p@.map_values(|c: (String, String)| (c.0@, Some(c.1@))),
        ),
    }
}

pub open spec fn opt_view(o: Option<String>) -> Option<Seq<char>> {
    match o {
        Some(s) => Some(s@),
        None => None,
    }
}

/// The metadata of one column: its name and type, and, when the catalog
/// describes an attribute of that readable name, its description, its code
/// list, and a reference to the administrative-area table for columns coded
/// by it.
pub open spec fn column_metadata_of(c: ColumnSchema, attrs: Seq<AttributeInfo>, m: ColumnMetadata) -> bool {
    &&& m.name@ == c.name@
    &&& m.data_type@ == c.data_type@
    &&& match attr_index_from(attrs, c.name@, 0) {
        None => m.desc is None && m.foreign_key is None && m.enum_values is None,
        Some(k) => {
            &&& opt_view(m.desc) == Some(attrs[k].description@)
            &&& (is_admin_code(attrs[k]) ==> (m.foreign_key matches Some(f)
                && f.foreign_table@ == "admini_boundary_cd"@ && f.foreign_column@
                == "行政区域コード"@))
            &&& (!is_admin_code(attrs[k]) ==> m.foreign_key is None)
            &&& match m.enum_values {
                Some(v) => enum_values_of(attrs[k].reference) == Some(enum_view(v@)),
                None => enum_values_of(attrs[k].reference) is None,
            }
        },
    }
}

fn find_attr(attrs: &Vec<AttributeInfo>, name: &str) -> (r: Option<usize>)
    ensures
        r matches Some(k) ==> k < attrs.len() && attr_index_from(attrs@, name@, 0) == Some(k as int),
        r is None ==> attr_index_from(attrs@, name@, 0) is None,
{
    let mut i: usize = 0;
    while i < attrs.len()
        invariant
            i <= attrs.len(),
            attr_index_from(attrs@, name@, 0) == attr_index_from(attrs@, name@, i as int),
        decreases attrs.len() - i,
    {
        if is_word(attrs[i].readable_name.as_str(), name) {
            return Some(i);
        }
        i = i + 1;
    }
    None
}

fn contains_text_exec(s: &str, k: &str) -> (r: bool)
    ensures
        r == contains_text(s@, k@),
{
    let v = chars_of(s);
    let w = chars_of(k);
    let mut i: usize = 0;
    while i < v.len()
        invariant
            v@ == s@,
            w@ == k@,
            i <= v.len(),
            forall|j: int| 0 <= j < i ==> !starts_at(s@, j, k@),
        decreases v.len() - i,
    {
        if starts_at_exec(&v, i, &w) {
            return true;
        }
        i = i + 1;
    }
    if starts_at_exec(&v, i, &w) {
        return true;
    }
    proof {
        assert forall|j: int| !starts_at(s@, j, k@) by {
            if j > v.len() {
                assert(!(j + k@.len() <= s@.len()));
            }
        }
    }
    false
}

fn enum_values_exec(r: &Option<RefType>) -> (out: Option<Vec<EnumValue>>)
    ensures
        match out {
            Some(v) => enum_values_of(*r) == Some(enum_view(v@)),
            None => enum_values_of(*r) is None,
        },
{
    match r {
        None => None,
        Some(RefType::Enum(list)) => {
            let mut v: Vec<EnumValue> = Vec::new();
            let mut i: usize = 0;
            while i < list.len()
                invariant
                    i <= list.len(),
                    enum_view(v@) == list@.subrange(0, i as int).map_values(
                        |s: String| (s@, None::<Seq<char>>),
                    ),
                decreases list.len() - i,
            {
                let ghost prior = enum_view(v@);
                v.push(EnumValue { value: list[i].clone(), desc: None });
                proof {
                    assert(enum_view(v@) =~= prior.push((list@[i as int]@, None::<Seq<char>>)));
                    assert(enum_view(v@) =~= list@.subrange(0, i + 1).map_values(
                        |s: String| (s@, None::<Seq<char>>),
                    ));
                }
                i = i + 1;
            }
            proof {
                assert(list@.subrange(0, i as int) =~= list@);
            }
            Some(v)
        },
        Some(RefType::Code(pairs)) => {
            let mut v: Vec<EnumValue> = Vec::new();
            let mut i: usize = 0;
            while i < pairs.len()
                invariant
                    i <= pairs.len(),
                    enum_view(v@) == pairs@.subrange(0, i as int).map_values(
                        |c: (String, String)| (c.0@, Some(c.1@)),
                    ),
                decreases pairs.len() - i,
            {
                let ghost prior = enum_view(v@);
                v.push(EnumValue { value: pairs[i].0.clone(), desc: Some(pairs[i].1.clone()) });
                proof {
                    assert(enum_view(v@) =~= prior.push(
                        (pairs@[i as int].0@, Some(pairs@[i as int].1@)),
                    ));
                    assert(enum_view(v@) =~= pairs@.subrange(0, i + 1).map_values(
                        |c: (String, String)| (c.0@, Some(c.1@)),
                    ));
                }
                i = i + 1;
            }
            proof {
                assert(pairs@.subrange(0, i as int) =~= pairs@);
            }
            Some(v)
        },
    }
}

/// The metadata of one column, from the attributes the catalog describes.
pub fn column_metadata(c: &ColumnSchema, attrs: &Vec<AttributeInfo>) -> (m: ColumnMetadata)
    ensures
        column_metadata_of(*c, attrs@, m),
{
    match find_attr(attrs, c.name.as_str()) {
        None => ColumnMetadata {
            name: c.name.clone(),
            desc: None,
            data_type: c.data_type.clone(),
            foreign_key: None,
            enum_values: None,
        },
        Some(k) => {
            let a = &attrs[k];
            let fk = match &a.type_ref_url {
                Some(u) => {
                    if contains_text_exec(u.as_str(), "AdminiBoundary_CD.xlsx") {
                        Some(
                            ForeignKeyRef {
                                foreign_table: String::from_str("admini_boundary_cd"),
                                foreign_column: String::from_str("行政区域コード"),
                            },
                        )
                    } else {
                        None
                    }
                },
                None => None,
            };
            ColumnMetadata {
                name: c.name.clone(),
                desc: Some(a.description.clone()),
                data_type: c.data_type.clone(),
                foreign_key: fk,
                enum_values: enum_values_exec(&a.reference),
            }
        },
    }
}

/// The attributes that describe an output: those of the variant it was
/// resolved from when that variant lists any, else the dataset's catalog.
pub open spec fn attributes_for(d: Dataset, identifier: Seq<char>) -> Seq<AttributeInfo> {
    match variant_index_from(d.variants@, identifier, 0) {
        Some(k) => d.variants@[k].attributes@,
        None => d.attributes@,
    }
}

/// The first variant that has the identifier and lists attributes.
pub open spec fn variant_index_from(vs: Seq<crate::catalog::Variant>, id: Seq<char>, i: int) -> Option<
    int,
>
    decreases vs.len() - i,
{
    if i < 0 || i >= vs.len() {
        None
    } else if vs[i].variant_identifier@ == id && vs[i].attributes.len() > 0 {
        Some(i)
    } else {
        variant_index_from(vs, id, i + 1)
    }
}

pub fn attributes_of<'a>(d: &'a Dataset, identifier: &str) -> (r: &'a Vec<AttributeInfo>)
    ensures
        r@ == attributes_for(*d, identifier@),
{
    let mut i: usize = 0;
    while i < d.variants.len()
        invariant
            i <= d.variants.len(),
            variant_index_from(d.variants@, identifier@, 0) == variant_index_from(
                d.variants@,
                identifier@,
                i as int,
            ),
        decreases d.variants.len() - i,
    {
        if is_word(d.variants[i].variant_identifier.as_str(), identifier)
            && d.variants[i].attributes.len() > 0 {
            return &d.variants[i].attributes;
        }
        i = i + 1;
    }
    &d.attributes
}

pub open spec fn nonempty_or_none(s: Seq<char>, o: Option<String>) -> bool {
    if s.len() == 0 {
        o is None
    } else {
        o matches Some(x) && x@ == s
    }
}

/// The metadata record of an output: the output's display name, the
/// dataset's description, source and terms of use, the surrogate key, and
/// one column record for each column of `columns`.
pub open spec fn table_metadata_of(
    m: ShapefileMetadata,
    d: Dataset,
    columns: Seq<ColumnSchema>,
    t: TableMetadata,
) -> bool {
    &&& t.name@ == m.name@
    &&& nonempty_or_none(d.description@, t.desc)
    &&& t.source matches Some(s) && s@ == "国土数値情報"@
    &&& nonempty_or_none(d.source_url@, t.source_url)
    &&& nonempty_or_none(d.usage@, t.license)
    &&& t.primary_key matches Some(k) && k@ == "ogc_fid"@
    &&& t.columns.len() == columns.len()
    &&& forall|i: int|
        0 <= i < columns.len() ==> column_metadata_of(
            columns[i],
            attributes_for(d, m.identifier@),
            #[trigger] t.columns@[i],
        )
}

fn nonempty(s: &String) -> (r: Option<String>)
    ensures
        nonempty_or_none(s@, r),
{
    if s.as_str().is_empty() {
        None
    } else {
        Some(s.clone())
    }
}

/// Builds the metadata record of an output from its columns.
pub fn table_metadata(m: &ShapefileMetadata, d: &Dataset, columns: &Vec<ColumnSchema>) -> (r:
    TableMetadata)
    ensures
        table_metadata_of(*m, *d, columns@, r),
{
    let attrs = attributes_of(d, m.identifier.as_str());
    let mut cols: Vec<ColumnMetadata> = Vec::new();
    let mut i: usize = 0;
    while i < columns.len()
        invariant
            attrs@ == attributes_for(*d, m.identifier@),
            i <= columns.len(),
            cols.len() == i,
            forall|k: int|
                0 <= k < i ==> column_metadata_of(columns@[k], attrs@, #[trigger] cols@[k]),
        decreases columns.len() - i,
    {
        cols.push(column_metadata(&columns[i], attrs));
        i = i + 1;
    }
    TableMetadata {
        name: m.name.clone(),
        desc: nonempty(&d.description),
        source: Some(String::from_str("国土数値情報")),
        source_url: nonempty(&d.source_url),
        license: nonempty(&d.usage),
        primary_key: Some(String::from_str("ogc_fid")),
        columns: cols,
    }
}

/// The columns of the administrative-area code table, in order.
pub open spec fn code_table_columns() -> Seq<Seq<char>> {
    seq![
        "行政区域コード"@,
        "都道府県名（漢字）"@,
        "市区町村名（漢字）"@,
        "都道府県名（カナ）"@,
        "市区町村名（カナ）"@,
        "コードの改定区分"@,
        "改正年月日"@,
        "改正後のコード"@,
        "改正後の名称"@,
        "改正後の名称（カナ）"@,
        "改正事由等"@,
    ]
}

fn text_column(name: &str, desc: Option<String>) -> (c: ColumnMetadata)
    ensures
        c.name@ == name@ && c.data_type@ == "varchar"@ && c.desc == desc && c.foreign_key is None
            && c.enum_values is None,
{
    ColumnMetadata {
        name: String::from_str(name),
        desc,
        data_type: String::from_str("varchar"),
        foreign_key: None,
        enum_values: None,
    }
}

/// The metadata record of the administrative-area code table: its text
/// columns, keyed by the area code; only the code after revision is
/// described.
pub fn admini_boundary_metadata() -> (t: TableMetadata)
    ensures
        t.name@ == "行政区域コード"@,
        t.source matches Some(s) && s@ == "国土数値情報"@,
        t.source_url matches Some(u) && u@
            == "https://nlftp.mlit.go.jp/ksj/gml/codelist/AdminiBoundary_CD.xlsx"@,
        t.primary_key matches Some(k) && k@ == "行政区域コード"@,
        t.desc is None && t.license is None,
        t.columns@.map_values(|c: ColumnMetadata| c.name@) == code_table_columns(),
        forall|i: int|
            0 <= i < t.columns.len() ==> (#[trigger] t.columns@[i]).data_type@ == "varchar"@
                && t.columns@[i].foreign_key is None && t.columns@[i].enum_values is None && (
            t.columns@[i].desc is Some <==> i == 7),
{
    let mut cols: Vec<ColumnMetadata> = Vec::new();
    cols.push(text_column("行政区域コード", None));
    cols.push(text_column("都道府県名（漢字）", None));
    cols.push(text_column("市区町村名（漢字）", None));
    cols.push(text_column("都道府県名（カナ）", None));
    cols.push(text_column("市区町村名（カナ）", None));
    cols.push(text_column("コードの改定区分", None));
    cols.push(text_column("改正年月日", None));
    cols.push(
        text_column(
            "改正後のコード",
            Some(String::from_str("統廃合後の行政区域コード。全国地方公共団体コードに相当する値。")),
        ),
    );
    cols.push(text_column("改正後の名称", None));
    cols.push(text_column("改正後の名称（カナ）", None));
    cols.push(text_column("改正事由等", None));
    proof {
        assert(cols@.map_values(|c: ColumnMetadata| c.name@) =~= code_table_columns());
    }
    TableMetadata {
        name: String::from_str("行政区域コード"),
        desc: None,
        source: Some(String::from_str("国土数値情報")),
        source_url: Some(
            String::from_str("https://nlftp.mlit.go.jp/ksj/gml/codelist/AdminiBoundary_CD.xlsx"),
        ),
        license: None,
        primary_key: Some(String::from_str("行政区域コード")),
        columns: cols,
    }
}

} // verus!
