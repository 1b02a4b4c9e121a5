//! Resolves a catalog entry into the outputs it is loaded as: for each, the
//! destination identifier, the table from source attribute to column name,
//! and the matchers that pick its Shapefiles out of the archives.

use crate::catalog::{AttributeInfo, Dataset, Variant};
use crate::template::{
    any_sidecar_view, compiled, hint_templates, split_shapefile_matcher, NamePattern,
    NamePatternView,
};
use crate::text::{
    chars_of, find_from, find_from_exec, lemma_str_le_total, lemma_str_le_trans, str_le,
    str_le_exec, string_of, trim, trim_exec,
};
use vstd::prelude::*;

verus! {

broadcast use vstd::seq_lib::group_to_multiset_ensures;

/// Why a catalog entry could not be resolved.
#[derive(Clone, Debug)]
pub enum MappingError {
    /// A mapping record lacked these fields when it was finished.
    MissingFields(Vec<String>),
}

/// One output of a dataset.
#[derive(Clone, Debug)]
pub struct ShapefileMetadata {
    pub cat1: String,
    pub cat2: String,
    pub name: String,
    pub version: String,
    pub data_year: String,
    /// The naming templates of the Shapefiles that belong to this output.
    pub shapefile_matcher: Vec<String>,
    /// The matchers compiled from `shapefile_matcher`.
    pub shapefile_name_regex: Vec<NamePattern>,
    /// (column name, source attribute name), in order.
    pub field_mappings: Vec<(String, String)>,
    /// The catalog identifier of the dataset.
    pub original_identifier: String,
    /// The destination table or file name.
    pub identifier: String,
}

pub struct MappingView {
    pub cat1: Seq<char>,
    pub cat2: Seq<char>,
    pub name: Seq<char>,
    pub version: Seq<char>,
    pub data_year: Seq<char>,
    pub templates: Seq<Seq<char>>,
    pub matchers: Seq<NamePatternView>,
    pub fields: Seq<(Seq<char>, Seq<char>)>,
    pub original_identifier: Seq<char>,
    pub identifier: Seq<char>,
}

pub open spec fn strings_view(v: Seq<String>) -> Seq<Seq<char>> {
    v.map_values(|s: String| s@)
}

pub open spec fn pairs_view(v: Seq<(String, String)>) -> Seq<(Seq<char>, Seq<char>)> {
    v.map_values(|p: (String, String)| (p.0@, p.1@))
}

pub open spec fn patterns_view(v: Seq<NamePattern>) -> Seq<NamePatternView> {
    v.map_values(|p: NamePattern| p@)
}

impl View for ShapefileMetadata {
    type V = MappingView;

    open spec fn view(&self) -> MappingView {
        MappingView {
            cat1: self.cat1@,
            cat2: self.cat2@,
            name: self.name@,
            version: self.version@,
            data_year: self.data_year@,
            templates: strings_view(self.shapefile_matcher@),
            matchers: patterns_view(self.shapefile_name_regex@),
            fields: pairs_view(self.field_mappings@),
            original_identifier: self.original_identifier@,
            identifier: self.identifier@,
        }
    }
}

/// The matchers of a list of templates; with no template, the one that
/// takes any Shapefile.
pub open spec fn matchers_of(ts: Seq<Seq<char>>) -> Seq<NamePatternView> {
    if ts.len() == 0 {
        Seq::new(1, |i: int| any_sidecar_view())
    } else {
        ts.map_values(|t: Seq<char>| compiled(t))
    }
}

/// Compiles each template, or gives the any-Shapefile matcher when there is
/// none.
pub fn matchers_for(templates: &Vec<String>) -> (r: Vec<NamePattern>)
    ensures
        patterns_view(r@) == matchers_of(strings_view(templates@)),
{
    let mut out: Vec<NamePattern> = Vec::new();
    if templates.len() == 0 {
        out.push(NamePattern::any_sidecar());
        proof {
            assert(patterns_view(out@) =~= matchers_of(strings_view(templates@)));
        }
        return out;
    }
    let mut i: usize = 0;
    while i < templates.len()
        invariant
            i <= templates.len(),
            patterns_view(out@) == strings_view(templates@).subrange(0, i as int).map_values(
                |t: Seq<char>| compiled(t),
            ),
        decreases templates.len() - i,
    {
        let ghost prior = patterns_view(out@);
        let p = NamePattern::from_template(templates[i].as_str());
        out.push(p);
        proof {
            assert(p@ == compiled(templates@[i as int]@));
            assert(patterns_view(out@) =~= prior.push(p@));
            assert(strings_view(templates@)[i as int] == templates@[i as int]@);
            assert(patterns_view(out@) =~= strings_view(templates@).subrange(0, i + 1).map_values(
                |t: Seq<char>| compiled(t),
            ));
        }
        i = i + 1;
    }
    proof {
        assert(strings_view(templates@).subrange(0, i as int) =~= strings_view(templates@));
    }
    out
}

/// A record of an output whose fields are filled in one at a time; only
/// `finish` checks that none is missing.
pub struct ShapefileMetadataBuilder {
    pub cat1: Option<String>,
    pub cat2: Option<String>,
    pub name: Option<String>,
    pub version: Option<String>,
    pub data_year: Option<String>,
    pub shapefile_matcher: Option<Vec<String>>,
    pub field_mappings: Option<Vec<(String, String)>>,
    pub original_identifier: Option<String>,
    pub identifier: Option<String>,
}

pub open spec fn one_name(missing: bool, n: Seq<char>) -> Seq<Seq<char>> {
    if missing {
        Seq::new(1, |i: int| n)
    } else {
        Seq::empty()
    }
}

/// The fields a record still lacks, in declaration order.
pub open spec fn missing_fields(b: ShapefileMetadataBuilder) -> Seq<Seq<char>> {
    one_name(b.cat1 is None, "cat1"@) + one_name(b.cat2 is None, "cat2"@) + one_name(
        b.name is None,
        "name"@,
    ) + one_name(b.version is None, "version"@) + one_name(b.data_year is None, "data_year"@)
        + one_name(b.field_mappings is None, "field_mappings"@) + one_name(
        b.original_identifier is None,
        "original_identifier"@,
    ) + one_name(b.identifier is None, "identifier"@)
}

pub open spec fn builder_complete(b: ShapefileMetadataBuilder) -> bool {
    b.cat1 is Some && b.cat2 is Some && b.name is Some && b.version is Some && b.data_year is Some
        && b.field_mappings is Some && b.original_identifier is Some && b.identifier is Some
}

pub open spec fn builder_templates(b: ShapefileMetadataBuilder) -> Seq<Seq<char>> {
    match b.shapefile_matcher {
        Some(v) => strings_view(v@),
        None => Seq::empty(),
    }
}

/// The record that a complete builder finishes into.
pub open spec fn built(b: ShapefileMetadataBuilder, m: MappingView) -> bool {
    &&& m.cat1 == b.cat1.unwrap()@
    &&& m.cat2 == b.cat2.unwrap()@
    &&& m.name == b.name.unwrap()@
    &&& m.version == b.version.unwrap()@
    &&& m.data_year == b.data_year.unwrap()@
    &&& m.templates == builder_templates(b)
    &&& m.matchers == matchers_of(builder_templates(b))
    &&& m.fields == pairs_view(b.field_mappings.unwrap()@)
    &&& m.original_identifier == b.original_identifier.unwrap()@
    &&& m.identifier == b.identifier.unwrap()@
}

fn note_missing(out: &mut Vec<String>, missing: bool, n: &str)
    ensures
        strings_view(final(out)@) == strings_view(old(out)@) + one_name(missing, n@),
{
    let ghost prior = strings_view(out@);
    if missing {
        out.push(String::from_str(n));
        proof {
            assert(strings_view(out@) =~= prior + one_name(missing, n@));
        }
    } else {
        proof {
            assert(strings_view(out@) =~= prior + one_name(missing, n@));
        }
    }
}

impl ShapefileMetadataBuilder {
    pub fn new() -> (r: ShapefileMetadataBuilder)
        ensures
            r.cat1 is None && r.cat2 is None && r.name is None && r.version is None && r.data_year is None
                && r.shapefile_matcher is None && r.field_mappings is None
                && r.original_identifier is None && r.identifier is None,
    {
        ShapefileMetadataBuilder {
            cat1: None,
            cat2: None,
            name: None,
            version: None,
            data_year: None,
            shapefile_matcher: None,
            field_mappings: None,
            original_identifier: None,
            identifier: None,
        }
    }

    /// The finished record, or every field that was never set.
    pub fn finish(self) -> (r: Result<ShapefileMetadata, MappingError>)
        ensures
            r is Ok <==> builder_complete(self),
            r matches Ok(m) ==> built(self, m@),
            r matches Err(MappingError::MissingFields(f)) ==> strings_view(f@) == missing_fields(
                self,
            ) && f@.len() > 0,
    {
        let ghost b = self;
        let mut missing: Vec<String> = Vec::new();
        note_missing(&mut missing, self.cat1.is_none(), "cat1");
        note_missing(&mut missing, self.cat2.is_none(), "cat2");
        note_missing(&mut missing, self.name.is_none(), "name");
        note_missing(&mut missing, self.version.is_none(), "version");
        note_missing(&mut missing, self.data_year.is_none(), "data_year");
        note_missing(&mut missing, self.field_mappings.is_none(), "field_mappings");
        note_missing(&mut missing, self.original_identifier.is_none(), "original_identifier");
        note_missing(&mut missing, self.identifier.is_none(), "identifier");
        proof {
            assert(strings_view(missing@) =~= missing_fields(b));
        }
        let ShapefileMetadataBuilder {
            cat1,
            cat2,
            name,
            version,
            data_year,
            shapefile_matcher,
            field_mappings,
            original_identifier,
            identifier,
        } = self;
        match (cat1, cat2, name, version, data_year, field_mappings, original_identifier, identifier) {
            (
                Some(cat1),
                Some(cat2),
                Some(name),
                Some(version),
                Some(data_year),
                Some(field_mappings),
                Some(original_identifier),
                Some(identifier),
            ) => {
                let templates = match shapefile_matcher {
                    Some(t) => t,
                    None => Vec::new(),
                };
                proof {
                    assert(strings_view(templates@) =~= builder_templates(b));
                }
                let matchers = matchers_for(&templates);
                Ok(
                    ShapefileMetadata {
                        cat1,
                        cat2,
                        name,
                        version,
                        data_year,
                        shapefile_matcher: templates,
                        shapefile_name_regex: matchers,
                        field_mappings,
                        original_identifier,
                        identifier,
                    },
                )
            },
            _ => {
                proof {
                    assert(missing_fields(b).len() > 0);
                }
                Err(MappingError::MissingFields(missing))
            },
        }
    }
}

/// `s` from position `i` on without its parenthesised annotations: a
/// full-width `（` with at least one character before the next `）`, and
/// that `）`.
pub open spec fn stripped_from(s: Seq<char>, i: int) -> Seq<char>
    decreases s.len() - i,
{
    if i < 0 || i >= s.len() {
        Seq::empty()
    } else {
        let close = find_from(s, i + 1, '）');
        if s[i] == '（' && close is Some && i + 1 < close.unwrap() < s.len() {
            stripped_from(s, close.unwrap() + 1)
        } else {
            s.subrange(i, i + 1) + stripped_from(s, i + 1)
        }
    }
}

/// A display name: without annotations such as "（ポリゴン）", and without
/// surrounding white space.
pub open spec fn display_name(s: Seq<char>) -> Seq<char> {
    trim(stripped_from(s, 0))
}

proof fn lemma_find_from_after(s: Seq<char>, j: int, c: char)
    requires
        0 <= j,
    ensures
        find_from(s, j, c) matches Some(e) ==> j <= e < s.len() && s[e] == c,
    decreases s.len() - j,
{
    if j < s.len() && s[j] != c {
        lemma_find_from_after(s, j + 1, c);
    }
}

/// Strips parenthesised annotations and surrounding white space from a name.
pub fn format_name(name: &str) -> (r: String)
    ensures
        r@ == display_name(name@),
{
    let v = chars_of(name);
    let mut out: Vec<char> = Vec::new();
    let mut i: usize = 0;
    assert(out@ + stripped_from(v@, 0) =~= stripped_from(v@, 0));
    while i < v.len()
        invariant
            v@ == name@,
            i <= v.len(),
            out@ + stripped_from(v@, i as int) == stripped_from(v@, 0),
        decreases v.len() - i,
    {
        let ghost prior = out@;
        proof {
            lemma_find_from_after(v@, i + 1, '）');
        }
        let close = find_from_exec(&v, i + 1, '）');
        let skip = match close {
            Some(e) => v[i] == '（' && e > i + 1 && e < v.len(),
            None => false,
        };
        if skip {
            i = close.unwrap() + 1;
        } else {
            out.push(v[i]);
            proof {
                let tail = stripped_from(v@, i + 1);
                assert(prior + (v@.subrange(i as int, i + 1) + tail) =~= out@ + tail);
            }
            i = i + 1;
        }
    }
    proof {
        assert(out@ + stripped_from(v@, i as int) =~= out@);
    }
    string_of(&trim_exec(&out))
}

/// (readable name, attribute name) of each attribute, in order.
pub open spec fn field_table(attrs: Seq<AttributeInfo>) -> Seq<(Seq<char>, Seq<char>)> {
    attrs.map_values(|a: AttributeInfo| (a.readable_name@, a.attribute_name@))
}

/// Ordered by source attribute name.
pub open spec fn sorted_by_source(s: Seq<(Seq<char>, Seq<char>)>) -> bool {
    forall|i: int, j: int| 0 <= i < j < s.len() ==> str_le(#[trigger] s[i].1, #[trigger] s[j].1)
}

/// The field table that an output falls back on: every attribute of the
/// dataset's catalog, ordered by source attribute name.
pub open spec fn fallback_fields(d: Dataset, f: Seq<(Seq<char>, Seq<char>)>) -> bool {
    sorted_by_source(f) && f.to_multiset() == field_table(d.attributes@).to_multiset()
}

fn field_pair(a: &AttributeInfo) -> (r: (String, String))
    ensures
        r.0@ == a.readable_name@ && r.1@ == a.attribute_name@,
{
    (a.readable_name.clone(), a.attribute_name.clone())
}

/// The field table of a list of attributes, in their order.
pub fn field_table_exec(attrs: &Vec<AttributeInfo>) -> (r: Vec<(String, String)>)
    ensures
        pairs_view(r@) == field_table(attrs@),
{
    let mut out: Vec<(String, String)> = Vec::new();
    let mut i: usize = 0;
    while i < attrs.len()
        invariant
            i <= attrs.len(),
            pairs_view(out@) == field_table(attrs@.subrange(0, i as int)),
        decreases attrs.len() - i,
    {
        let ghost prior = pairs_view(out@);
        let p = field_pair(&attrs[i]);
        out.push(p);
        proof {
            assert(pairs_view(out@) =~= prior.push((p.0@, p.1@)));
            assert(pairs_view(out@) =~= field_table(attrs@.subrange(0, i + 1)));
        }
        i = i + 1;
    }
    proof {
        assert(attrs@.subrange(0, i as int) =~= attrs@);
    }
    out
}

/// The field table of a list of attributes, ordered by attribute name
/// (attributes of equal name keep their order).
pub fn sorted_field_table(attrs: &Vec<AttributeInfo>) -> (r: Vec<(String, String)>)
    ensures
        sorted_by_source(pairs_view(r@)),
        pairs_view(r@).to_multiset() == field_table(attrs@).to_multiset(),
{
    let mut out: Vec<(String, String)> = Vec::new();
    let mut i: usize = 0;
    while i < attrs.len()
        invariant
            i <= attrs.len(),
            sorted_by_source(pairs_view(out@)),
            pairs_view(out@).to_multiset() == field_table(attrs@.subrange(0, i as int)).to_multiset(),
        decreases attrs.len() - i,
    {
        let p = field_pair(&attrs[i]);
        let ghost pv = (p.0@, p.1@);
        let ghost before = pairs_view(out@);
        let mut pos: usize = 0;
        while pos < out.len() && str_le_exec(out[pos].1.as_str(), p.1.as_str())
            invariant
                pos <= out.len(),
                before == pairs_view(out@),
                pv == (p.0@, p.1@),
                forall|k: int| 0 <= k < pos ==> str_le(#[trigger] before[k].1, pv.1),
            decreases out.len() - pos,
        {
            pos = pos + 1;
        }
        proof {
            if pos < out.len() {
                lemma_str_le_total(before[pos as int].1, pv.1, 0);
            }
        }
        out.insert(pos, p);
        proof {
            let after = pairs_view(out@);
            assert(after =~= before.insert(pos as int, pv));
            assert forall|a: int, b: int| 0 <= a < b < after.len() implies str_le(
                #[trigger] after[a].1,
                #[trigger] after[b].1,
            ) by {
                if b < pos {
                } else if b == pos {
                } else if a < pos {
                    lemma_str_le_total(before[pos as int].1, pv.1, 0);
                    if b - 1 > pos {
                        assert(str_le(before[pos as int].1, before[b - 1].1));
                        lemma_str_le_trans(pv.1, before[pos as int].1, before[b - 1].1, 0);
                    }
                    lemma_str_le_trans(before[a].1, pv.1, before[b - 1].1, 0);
                } else if a == pos {
                    if b - 1 > pos {
                        assert(str_le(before[pos as int].1, before[b - 1].1));
                        lemma_str_le_trans(pv.1, before[pos as int].1, before[b - 1].1, 0);
                    }
                } else {
                    assert(str_le(before[a - 1].1, before[b - 1].1));
                }
            }
            assert(field_table(attrs@.subrange(0, i + 1)) =~= field_table(
                attrs@.subrange(0, i as int),
            ).push(pv));
        }
        i = i + 1;
    }
    proof {
        assert(attrs@.subrange(0, i as int) =~= attrs@);
    }
    out
}

/// One output of a multi-output rule: its identifier, display name and
/// naming template.
#[derive(Clone, Debug)]
pub struct OverrideOutput {
    pub identifier: String,
    pub name: String,
    pub template: String,
}

/// A dataset known to ship several distinct outputs in one archive, which
/// the catalog does not describe as variants.
#[derive(Clone, Debug)]
pub struct OverrideRule {
    pub identifier: String,
    pub outputs: Vec<OverrideOutput>,
}

/// The first rule for the dataset `id`.
pub open spec fn rule_index_from(rules: Seq<OverrideRule>, id: Seq<char>, i: int) -> Option<int>
    decreases rules.len() - i,
{
    if i < 0 || i >= rules.len() {
        None
    } else if rules[i].identifier@ == id {
        Some(i)
    } else {
        rule_index_from(rules, id, i + 1)
    }
}

pub open spec fn rule_index(rules: Seq<OverrideRule>, id: Seq<char>) -> Option<int> {
    rule_index_from(rules, id, 0)
}

pub open spec fn hint_of(h: Option<String>) -> Seq<Seq<char>> {
    match h {
        Some(s) => hint_templates(s@),
        None => Seq::empty(),
    }
}

/// What an output takes over from its dataset.
pub open spec fn from_dataset(d: Dataset, m: MappingView) -> bool {
    &&& m.cat1 == d.category1_name@
    &&& m.cat2 == d.category2_name@
    &&& m.version == d.version@
    &&& m.data_year == d.data_year@
    &&& m.original_identifier == d.identifier@
    &&& m.matchers == matchers_of(m.templates)
}

/// A variant has what an output needs: an identifier and a display name.
pub open spec fn variant_complete(v: Variant) -> bool {
    v.variant_identifier@.len() > 0 && display_name(v.variant_name@).len() > 0
}

pub open spec fn dataset_complete(d: Dataset) -> bool {
    d.identifier@.len() > 0 && display_name(d.name@).len() > 0
}

/// The output of one catalog variant: its own identifier and name, its
/// naming-template hint, and its attributes (or, without any, the dataset's
/// catalog ordered by attribute name).
pub open spec fn variant_output(d: Dataset, v: Variant, m: MappingView) -> bool {
    &&& from_dataset(d, m)
    &&& m.identifier == v.variant_identifier@
    &&& m.name == display_name(v.variant_name@)
    &&& m.templates == hint_of(v.shapefile_hint)
    &&& if v.attributes.len() > 0 {
        m.fields == field_table(v.attributes@)
    } else {
        fallback_fields(d, m.fields)
    }
}

/// The one output of a dataset without variants: the dataset's identifier
/// and name, any Shapefile, the dataset's attribute catalog.
pub open spec fn singleton_output(d: Dataset, m: MappingView) -> bool {
    &&& from_dataset(d, m)
    &&& m.identifier == d.identifier@
    &&& m.name == display_name(d.name@)
    &&& m.templates == Seq::<Seq<char>>::empty()
    &&& fallback_fields(d, m.fields)
}

/// An output that a multi-output rule puts in place of the singleton.
pub open spec fn override_output(d: Dataset, o: OverrideOutput, m: MappingView) -> bool {
    &&& from_dataset(d, m)
    &&& m.identifier == o.identifier@
    &&& m.name == o.name@
    &&& m.templates == Seq::new(1, |i: int| o.template@)
    &&& fallback_fields(d, m.fields)
}

pub open spec fn all_variants_complete(d: Dataset) -> bool {
    forall|i: int| 0 <= i < d.variants.len() ==> variant_complete(#[trigger] d.variants@[i])
}

/// The outputs that `d` resolves into under `rules`.
pub open spec fn resolved(d: Dataset, rules: Seq<OverrideRule>, ms: Seq<MappingView>) -> bool {
    if d.variants.len() > 0 {
        ms.len() == d.variants.len() && forall|i: int|
            0 <= i < ms.len() ==> variant_output(d, d.variants@[i], #[trigger] ms[i])
    } else {
        match rule_index(rules, d.identifier@) {
            None => ms.len() == 1 && singleton_output(d, ms[0]),
            Some(k) => ms.len() == rules[k].outputs.len() && forall|i: int|
                0 <= i < ms.len() ==> override_output(d, rules[k].outputs@[i], #[trigger] ms[i]),
        }
    }
}

pub open spec fn resolvable(d: Dataset) -> bool {
    if d.variants.len() > 0 {
        all_variants_complete(d)
    } else {
        dataset_complete(d)
    }
}

pub open spec fn mappings_view(ms: Seq<ShapefileMetadata>) -> Seq<MappingView> {
    ms.map_values(|m: ShapefileMetadata| m@)
}

fn clone_strings(v: &Vec<String>) -> (r: Vec<String>)
    ensures
        strings_view(r@) == strings_view(v@),
{
    let mut out: Vec<String> = Vec::new();
    let mut i: usize = 0;
    while i < v.len()
        invariant
            i <= v.len(),
            strings_view(out@) == strings_view(v@.subrange(0, i as int)),
        decreases v.len() - i,
    {
        let ghost prior = strings_view(out@);
        out.push(v[i].clone());
        proof {
            assert(strings_view(out@) =~= prior.push(v@[i as int]@));
            assert(strings_view(out@) =~= strings_view(v@.subrange(0, i + 1)));
        }
        i = i + 1;
    }
    proof {
        assert(v@.subrange(0, i as int) =~= v@);
    }
    out
}

fn clone_pairs(v: &Vec<(String, String)>) -> (r: Vec<(String, String)>)
    ensures
        pairs_view(r@) == pairs_view(v@),
{
    let mut out: Vec<(String, String)> = Vec::new();
    let mut i: usize = 0;
    while i < v.len()
        invariant
            i <= v.len(),
            pairs_view(out@) == pairs_view(v@.subrange(0, i as int)),
        decreases v.len() - i,
    {
        let ghost prior = pairs_view(out@);
        let p = (v[i].0.clone(), v[i].1.clone());
        out.push(p);
        proof {
            assert(pairs_view(out@) =~= prior.push((v@[i as int].0@, v@[i as int].1@)));
            assert(pairs_view(out@) =~= pairs_view(v@.subrange(0, i + 1)));
        }
        i = i + 1;
    }
    proof {
        assert(v@.subrange(0, i as int) =~= v@);
    }
    out
}

fn dataset_builder(d: &Dataset) -> (b: ShapefileMetadataBuilder)
    ensures
        b.cat1 matches Some(x) && x@ == d.category1_name@,
        b.cat2 matches Some(x) && x@ == d.category2_name@,
        b.version matches Some(x) && x@ == d.version@,
        b.data_year matches Some(x) && x@ == d.data_year@,
        b.original_identifier matches Some(x) && x@ == d.identifier@,
        b.name is None && b.identifier is None && b.field_mappings is None
            && b.shapefile_matcher is None,
{
    let mut b = ShapefileMetadataBuilder::new();
    b.cat1 = Some(d.category1_name.clone());
    b.cat2 = Some(d.category2_name.clone());
    b.version = Some(d.version.clone());
    b.data_year = Some(d.data_year.clone());
    b.original_identifier = Some(d.identifier.clone());
    b
}

/// The output of one variant of `d`.
pub fn mapping_for_variant(d: &Dataset, v: &Variant) -> (r: Result<ShapefileMetadata, MappingError>)
    ensures
        r is Ok <==> variant_complete(*v),
        r matches Ok(m) ==> variant_output(*d, *v, m@),
        r matches Err(MappingError::MissingFields(f)) ==> f@.len() > 0,
{
    let mut b = dataset_builder(d);
    if !v.variant_identifier.as_str().is_empty() {
        b.identifier = Some(v.variant_identifier.clone());
    }
    let name = format_name(v.variant_name.as_str());
    if !name.as_str().is_empty() {
        b.name = Some(name);
    }
    b.shapefile_matcher = Some(
        match &v.shapefile_hint {
            Some(h) => split_shapefile_matcher(h.as_str()),
            None => Vec::new(),
        },
    );
    if v.attributes.len() > 0 {
        b.field_mappings = Some(field_table_exec(&v.attributes));
    } else {
        b.field_mappings = Some(sorted_field_table(&d.attributes));
    }
    proof {
        assert(builder_templates(b) =~= hint_of(v.shapefile_hint));
    }
    b.finish()
}

/// The one output of a dataset that lists no variants.
pub fn singleton_mapping(d: &Dataset) -> (r: Result<ShapefileMetadata, MappingError>)
    ensures
        r is Ok <==> dataset_complete(*d),
        r matches Ok(m) ==> singleton_output(*d, m@),
        r matches Err(MappingError::MissingFields(f)) ==> f@.len() > 0,
{
    let mut b = dataset_builder(d);
    if !d.identifier.as_str().is_empty() {
        b.identifier = Some(d.identifier.clone());
    }
    let name = format_name(d.name.as_str());
    if !name.as_str().is_empty() {
        b.name = Some(name);
    }
    b.field_mappings = Some(sorted_field_table(&d.attributes));
    proof {
        assert(builder_templates(b) =~= Seq::<Seq<char>>::empty());
    }
    b.finish()
}

fn find_rule(rules: &Vec<OverrideRule>, id: &str) -> (r: Option<usize>)
    ensures
        r matches Some(k) ==> k < rules.len() && rule_index(rules@, id@) == Some(k as int),
        r is None ==> rule_index(rules@, id@) is None,
{
    let mut i: usize = 0;
    while i < rules.len()
        invariant
            i <= rules.len(),
            rule_index(rules@, id@) == rule_index_from(rules@, id@, i as int),
        decreases rules.len() - i,
    {
        if crate::output::is_word(rules[i].identifier.as_str(), id) {
            return Some(i);
        }
        i = i + 1;
    }
    None
}

/// An output of a multi-output rule that replaces the record `base`: the
/// rule output's identifier, name and template; all else from `base`.
pub open spec fn from_record(base: MappingView, o: OverrideOutput, m: MappingView) -> bool {
    &&& m.cat1 == base.cat1
    &&& m.cat2 == base.cat2
    &&& m.version == base.version
    &&& m.data_year == base.data_year
    &&& m.original_identifier == base.original_identifier
    &&& m.fields == base.fields
    &&& m.identifier == o.identifier@
    &&& m.name == o.name@
    &&& m.templates == Seq::new(1, |i: int| o.template@)
    &&& m.matchers == matchers_of(m.templates)
}

/// The outputs that a multi-output rule puts in place of `single`.
fn outputs_from_rule(rule: &OverrideRule, single: &ShapefileMetadata) -> (r: Vec<ShapefileMetadata>)
    ensures
        r.len() == rule.outputs.len(),
        forall|i: int| 0 <= i < r.len() ==> from_record(single@, rule.outputs@[i], #[trigger] r@[i]@),
{
    let mut out: Vec<ShapefileMetadata> = Vec::new();
    let mut i: usize = 0;
    while i < rule.outputs.len()
        invariant
            i <= rule.outputs.len(),
            out.len() == i,
            forall|k: int| 0 <= k < i ==> from_record(single@, rule.outputs@[k], #[trigger] out@[k]@),
        decreases rule.outputs.len() - i,
    {
        let o = &rule.outputs[i];
        let mut templates: Vec<String> = Vec::new();
        templates.push(o.template.clone());
        proof {
            assert(strings_view(templates@) =~= Seq::new(1, |j: int| o.template@));
        }
        let matchers = matchers_for(&templates);
        let m = ShapefileMetadata {
            cat1: single.cat1.clone(),
            cat2: single.cat2.clone(),
            name: o.name.clone(),
            version: single.version.clone(),
            data_year: single.data_year.clone(),
            shapefile_matcher: templates,
            shapefile_name_regex: matchers,
            field_mappings: clone_pairs(&single.field_mappings),
            original_identifier: single.original_identifier.clone(),
            identifier: o.identifier.clone(),
        };
        out.push(m);
        i = i + 1;
    }
    out
}

/// Resolves a dataset into its outputs: one per catalog variant, or, with
/// none, a single output for the dataset, which a multi-output rule for its
/// identifier replaces by the rule's outputs. Fails when a variant (or,
/// without variants, the dataset) lacks an identifier or a name.
pub fn resolve(d: &Dataset, rules: &Vec<OverrideRule>) -> (r: Result<
    Vec<ShapefileMetadata>,
    MappingError,
>)
    ensures
        r is Ok <==> resolvable(*d),
        r matches Ok(ms) ==> resolved(*d, rules@, mappings_view(ms@)),
        r matches Err(MappingError::MissingFields(f)) ==> f@.len() > 0,
{
    if d.variants.len() > 0 {
        let mut out: Vec<ShapefileMetadata> = Vec::new();
        let mut i: usize = 0;
        while i < d.variants.len()
            invariant
                d.variants.len() > 0,
                i <= d.variants.len(),
                out.len() == i,
                forall|k: int| 0 <= k < i ==> variant_complete(#[trigger] d.variants@[k]),
                forall|k: int|
                    0 <= k < i ==> variant_output(*d, d.variants@[k], #[trigger] out@[k]@),
            decreases d.variants.len() - i,
        {
            match mapping_for_variant(d, &d.variants[i]) {
                Ok(m) => out.push(m),
                Err(e) => return Err(e),
            }
            i = i + 1;
        }
        proof {
            let mv = mappings_view(out@);
            assert forall|k: int| 0 <= k < mv.len() implies variant_output(
                *d,
                d.variants@[k],
                #[trigger] mv[k],
            ) by {
                assert(mv[k] == out@[k]@);
            }
        }
        return Ok(out);
    }
    let single = match singleton_mapping(d) {
        Ok(m) => m,
        Err(e) => return Err(e),
    };
    match find_rule(rules, d.identifier.as_str()) {
        None => {
            let mut out: Vec<ShapefileMetadata> = Vec::new();
            out.push(single);
            proof {
                assert(mappings_view(out@)[0] == out@[0]@);
            }
            Ok(out)
        },
        Some(k) => {
            let out = outputs_from_rule(&rules[k], &single);
            proof {
                let mv = mappings_view(out@);
                assert forall|j: int| 0 <= j < mv.len() implies override_output(
                    *d,
                    rules@[k as int].outputs@[j],
                    #[trigger] mv[j],
                ) by {
                    assert(mv[j] == out@[j]@);
                    assert(from_record(single@, rules@[k as int].outputs@[j], out@[j]@));
                }
            }
            Ok(out)
        },
    }
}

/// A dataset without variants whose identifier has a multi-output rule is
/// loaded as exactly the rule's outputs, one mapping each, in the rule's
/// order, and none besides.
pub proof fn law_override_replaces_singleton(
    d: Dataset,
    rules: Seq<OverrideRule>,
    ms: Seq<MappingView>,
    k: int,
)
    requires
        d.variants.len() == 0,
        rule_index(rules, d.identifier@) == Some(k),
        resolved(d, rules, ms),
    ensures
        ms.len() == rules[k].outputs.len(),
        forall|i: int|
            0 <= i < ms.len() ==> (#[trigger] ms[i]).identifier == rules[k].outputs@[i].identifier@
                && ms[i].original_identifier == d.identifier@,
{
    assert forall|i: int| 0 <= i < ms.len() implies (#[trigger] ms[i]).identifier
        == rules[k].outputs@[i].identifier@ && ms[i].original_identifier == d.identifier@ by {
        assert(override_output(d, rules[k].outputs@[i], ms[i]));
    }
}

fn duplicate_patterns(v: &Vec<NamePattern>) -> (r: Vec<NamePattern>)
    ensures
        patterns_view(r@) == patterns_view(v@),
{
    let mut out: Vec<NamePattern> = Vec::new();
    let mut i: usize = 0;
    while i < v.len()
        invariant
            i <= v.len(),
            patterns_view(out@) == patterns_view(v@).subrange(0, i as int),
        decreases v.len() - i,
    {
        let ghost prior = patterns_view(out@);
        let p = v[i].duplicate();
        out.push(p);
        proof {
            assert(patterns_view(out@) =~= prior.push(p@));
            assert(patterns_view(out@) =~= patterns_view(v@).subrange(0, i + 1));
        }
        i = i + 1;
    }
    proof {
        assert(patterns_view(v@).subrange(0, i as int) =~= patterns_view(v@));
    }
    out
}

impl ShapefileMetadata {
    /// A copy of this record.
    pub fn duplicate(&self) -> (r: ShapefileMetadata)
        ensures
            r@ == self@,
    {
        ShapefileMetadata {
            cat1: self.cat1.clone(),
            cat2: self.cat2.clone(),
            name: self.name.clone(),
            version: self.version.clone(),
            data_year: self.data_year.clone(),
            shapefile_matcher: clone_strings(&self.shapefile_matcher),
            shapefile_name_regex: duplicate_patterns(&self.shapefile_name_regex),
            field_mappings: clone_pairs(&self.field_mappings),
            original_identifier: self.original_identifier.clone(),
            identifier: self.identifier.clone(),
        }
    }
}

/// The records of `defs` for the dataset `identifier`, in order.
pub open spec fn defs_for(defs: Seq<MappingView>, identifier: Seq<char>) -> Seq<MappingView>
    decreases defs.len(),
{
    if defs.len() == 0 {
        Seq::empty()
    } else {
        let r = defs_for(defs.drop_last(), identifier);
        if defs.last().original_identifier == identifier {
            r.push(defs.last())
        } else {
            r
        }
    }
}

/// The records of the spreadsheet catalog that belong to the dataset
/// `identifier`, in order.
fn records_for(defs: &Vec<ShapefileMetadata>, identifier: &str) -> (r: Vec<ShapefileMetadata>)
    ensures
        mappings_view(r@) == defs_for(mappings_view(defs@), identifier@),
{
    let ghost dv = mappings_view(defs@);
    let mut out: Vec<ShapefileMetadata> = Vec::new();
    let mut i: usize = 0;
    while i < defs.len()
        invariant
            dv == mappings_view(defs@),
            i <= defs.len(),
            mappings_view(out@) == defs_for(dv.subrange(0, i as int), identifier@),
        decreases defs.len() - i,
    {
        proof {
            assert(dv.subrange(0, i + 1).drop_last() =~= dv.subrange(0, i as int));
            assert(dv.subrange(0, i + 1).last() == defs@[i as int]@);
        }
        if crate::output::is_word(defs[i].original_identifier.as_str(), identifier) {
            let ghost prior = mappings_view(out@);
            let m = defs[i].duplicate();
            out.push(m);
            proof {
                assert(mappings_view(out@) =~= prior.push(m@));
            }
        }
        i = i + 1;
    }
    proof {
        assert(dv.subrange(0, i as int) =~= dv);
    }
    out
}

/// The outputs of the dataset `identifier` by the spreadsheet catalog: its
/// records, except that a single record is replaced by the outputs of a
/// multi-output rule for the identifier.
pub open spec fn records_resolved(
    defs: Seq<MappingView>,
    identifier: Seq<char>,
    rules: Seq<OverrideRule>,
    ms: Seq<MappingView>,
) -> bool {
    let f = defs_for(defs, identifier);
    match rule_index(rules, identifier) {
        Some(k) if f.len() == 1 => ms.len() == rules[k].outputs.len() && forall|i: int|
            0 <= i < ms.len() ==> from_record(f[0], rules[k].outputs@[i], #[trigger] ms[i]),
        _ => ms == f,
    }
}

/// The outputs of the dataset `identifier` by the spreadsheet catalog (see
/// `records_resolved`); this never fails.
pub fn find_mapping_def_for_entry(
    defs: &Vec<ShapefileMetadata>,
    identifier: &str,
    rules: &Vec<OverrideRule>,
) -> (r: Result<Vec<ShapefileMetadata>, MappingError>)
    ensures
        r matches Ok(v) && records_resolved(mappings_view(defs@), identifier@, rules@, mappings_view(
            v@,
        )),
{
    let found = records_for(defs, identifier);
    if found.len() == 1 {
        match find_rule(rules, identifier) {
            Some(k) => {
                let out = outputs_from_rule(&rules[k], &found[0]);
                proof {
                    let mv = mappings_view(out@);
                    let f = mappings_view(found@);
                    assert(f[0] == found@[0]@);
                    assert forall|j: int| 0 <= j < mv.len() implies from_record(
                        f[0],
                        rules@[k as int].outputs@[j],
                        #[trigger] mv[j],
                    ) by {
                        assert(mv[j] == out@[j]@);
                    }
                }
                return Ok(out);
            },
            None => {},
        }
    }
    Ok(found)
}

proof fn lemma_defs_for_identifier(defs: Seq<MappingView>, identifier: Seq<char>)
    ensures
        forall|i: int|
            0 <= i < defs_for(defs, identifier).len() ==> (#[trigger] defs_for(
                defs,
                identifier,
            )[i]).original_identifier == identifier,
    decreases defs.len(),
{
    if defs.len() > 0 {
        lemma_defs_for_identifier(defs.drop_last(), identifier);
        let r = defs_for(defs.drop_last(), identifier);
        if defs.last().original_identifier == identifier {
            assert forall|i: int| 0 <= i < r.push(defs.last()).len() implies (#[trigger] r.push(
                defs.last(),
            )[i]).original_identifier == identifier by {
                if i < r.len() {
                    assert(r.push(defs.last())[i] == r[i]);
                }
            }
        }
    }
}

/// By the spreadsheet catalog too, a dataset with a single record and a
/// multi-output rule is loaded as exactly the rule's outputs, in the rule's
/// order, each with the dataset's identifier as its origin.
pub proof fn law_record_override(
    defs: Seq<MappingView>,
    identifier: Seq<char>,
    rules: Seq<OverrideRule>,
    ms: Seq<MappingView>,
    k: int,
)
    requires
        defs_for(defs, identifier).len() == 1,
        rule_index(rules, identifier) == Some(k),
        records_resolved(defs, identifier, rules, ms),
    ensures
        ms.len() == rules[k].outputs.len(),
        forall|i: int|
            0 <= i < ms.len() ==> (#[trigger] ms[i]).identifier == rules[k].outputs@[i].identifier@
                && ms[i].original_identifier == identifier,
{
    lemma_defs_for_identifier(defs, identifier);
    assert forall|i: int| 0 <= i < ms.len() implies (#[trigger] ms[i]).identifier
        == rules[k].outputs@[i].identifier@ && ms[i].original_identifier == identifier by {
        assert(from_record(defs_for(defs, identifier)[0], rules[k].outputs@[i], ms[i]));
    }
}

} // verus!
