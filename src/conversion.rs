//! Preparing the input of the geometry conversion tool and reading its
//! results: the text encoding of each Shapefile, the field table that the
//! Shapefiles actually carry, the virtual-dataset descriptor that unions
//! them, the tool's arguments, and the schema of a written file.

use crate::catalog::strings_contain;
use crate::mapping::{pairs_view, strings_view};
use crate::output::{file_stem, file_stem_exec, is_word};
use crate::text::{lower_of, to_lowercase};
use vstd::prelude::*;

verus! {

/// Why an output could not be converted.
#[derive(Clone, Debug)]
pub enum ConversionError {
    /// No Shapefile matched the output.
    NoInput,
    /// None of the output's fields is present in its Shapefiles.
    NoFields,
    /// The text encoding of a Shapefile could not be told.
    EncodingUndetermined,
    /// The tool could not open a Shapefile.
    OpenFailed,
    /// The tool exited with a failure; what it wrote to its error stream.
    ToolInvocationFailed { stderr: String },
    /// The schema of a written file could not be read.
    SchemaIntrospectionFailed,
}

/// Decoding `bytes` with encoding_rs's Shift_JIS decoder (with BOM
/// sniffing) meets malformed sequences.
pub uninterp spec fn shift_jis_errors(bytes: Seq<u8>) -> bool;

/// Decoding `bytes` with encoding_rs's UTF-8 decoder (with BOM sniffing)
/// meets malformed sequences.
pub uninterp spec fn utf8_errors(bytes: Seq<u8>) -> bool;

/// Relies on `encoding_rs::Encoding::decode` on `SHIFT_JIS`: its third
/// result tells whether malformed sequences were met.
#[verifier::external_body]
fn shift_jis_had_errors(bytes: &[u8]) -> (r: bool)
    ensures
        r == shift_jis_errors(bytes@),
{
    let (_, _, had_errors) = encoding_rs::SHIFT_JIS.decode(bytes);
    had_errors
}

/// Relies on `encoding_rs::Encoding::decode` on `UTF_8`: its third result
/// tells whether malformed sequences were met.
#[verifier::external_body]
fn utf8_had_errors(bytes: &[u8]) -> (r: bool)
    ensures
        r == utf8_errors(bytes@),
{
    let (_, _, had_errors) = encoding_rs::UTF_8.decode(bytes);
    had_errors
}

/// The marker after which the tool's attribute dump holds only attribute
/// text (before it stands the file name, in any encoding).
pub open spec fn marker() -> Seq<u8> {
    seq![115u8, 117u8, 99u8, 99u8, 101u8, 115u8, 115u8, 102u8, 117u8, 108u8]
}

pub open spec fn marker_at(data: Seq<u8>, i: int) -> bool {
    0 <= i && i + 10 <= data.len() && data.subrange(i, i + 10) == marker()
}

/// The first position where the marker stands, searched from `i` on.
pub open spec fn marker_from(data: Seq<u8>, i: int) -> Option<int>
    decreases data.len() - i,
{
    if i < 0 || i + 10 > data.len() {
        None
    } else if marker_at(data, i) {
        Some(i)
    } else {
        marker_from(data, i + 1)
    }
}

/// The bytes after the first "successful" in `data`.
pub open spec fn after_marker(data: Seq<u8>) -> Option<Seq<u8>> {
    match marker_from(data, 0) {
        Some(i) => Some(data.subrange(i + 10, data.len() as int)),
        None => None,
    }
}

fn marker_at_exec(data: &[u8], i: usize) -> (r: bool)
    requires
        i + 10 <= data.len(),
    ensures
        r == marker_at(data@, i as int),
{
    let m: [u8; 10] = [115u8, 117u8, 99u8, 99u8, 101u8, 115u8, 115u8, 102u8, 117u8, 108u8];
    let mut k: usize = 0;
    while k < 10
        invariant
            i + 10 <= data.len(),
            k <= 10,
            m@ == marker(),
            forall|j: int| 0 <= j < k ==> data@[i + j] == marker()[j],
        decreases 10 - k,
    {
        if data[i + k] != m[k] {
            assert(data@.subrange(i as int, i + 10)[k as int] != marker()[k as int]);
            return false;
        }
        k = k + 1;
    }
    assert(data@.subrange(i as int, i + 10) =~= marker());
    true
}

/// The bytes of the tool's attribute dump after "successful".
pub fn bytes_after_successful(data: &[u8]) -> (r: Option<Vec<u8>>)
    ensures
        match after_marker(data@) {
            Some(rest) => r matches Some(v) && v@ == rest,
            None => r is None,
        },
{
    let mut i: usize = 0;
    while data.len() >= 10 && i <= data.len() - 10
        invariant
            i <= data.len(),
            marker_from(data@, 0) == marker_from(data@, i as int),
        decreases data.len() - i,
    {
        if marker_at_exec(data, i) {
            let mut out: Vec<u8> = Vec::new();
            let mut k = i + 10;
            while k < data.len()
                invariant
                    i + 10 <= k <= data.len(),
                    out@ == data@.subrange(i + 10, k as int),
                decreases data.len() - k,
            {
                out.push(data[k]);
                proof {
                    assert(out@ =~= data@.subrange(i + 10, k + 1));
                }
                k = k + 1;
            }
            return Some(out);
        }
        i = i + 1;
    }
    None
}

/// The encoding to read a Shapefile's text with, given which trial decodes
/// of its attribute dump were clean: the Japanese code page first, then
/// UTF-8.
pub fn choose_encoding(cp932_clean: bool, utf8_is_clean: bool) -> (r: Option<String>)
    ensures
        cp932_clean ==> (r matches Some(s) && s@ == "CP932"@),
        !cp932_clean && utf8_is_clean ==> (r matches Some(s) && s@ == "UTF-8"@),
        !cp932_clean && !utf8_is_clean ==> r is None,
{
    if cp932_clean {
        Some(String::from_str("CP932"))
    } else if utf8_is_clean {
        Some(String::from_str("UTF-8"))
    } else {
        None
    }
}

/// Tells a Shapefile's encoding from the tool's attribute dump by trial
/// decoding of what follows "successful". Fails when the dump has no
/// "successful" (the tool could not open the file).
pub fn encoding_from_dump(dump: &[u8]) -> (r: Result<Option<String>, ConversionError>)
    ensures
        match after_marker(dump@) {
            None => r matches Err(ConversionError::OpenFailed),
            Some(rest) => if !shift_jis_errors(rest) {
                r matches Ok(Some(s)) && s@ == "CP932"@
            } else if !utf8_errors(rest) {
                r matches Ok(Some(s)) && s@ == "UTF-8"@
            } else {
                r matches Ok(None)
            },
        },
{
    let rest = match bytes_after_successful(dump) {
        Some(v) => v,
        None => return Err(ConversionError::OpenFailed),
    };
    if !shift_jis_had_errors(rest.as_slice()) {
        return Ok(choose_encoding(true, false));
    }
    let utf8_ok = !utf8_had_errors(rest.as_slice());
    Ok(choose_encoding(false, utf8_ok))
}

/// Settles a Shapefile's encoding: the one the tool declares, unless it
/// declares none or an empty one; then the one that trial decoding found.
pub fn settle_encoding(declared: Option<String>, trial: Option<String>) -> (r: Result<
    String,
    ConversionError,
>)
    ensures
        match declared {
            Some(d) if d@.len() > 0 => r matches Ok(s) && s@ == d@,
            _ => match trial {
                Some(t) => r matches Ok(s) && s@ == t@,
                None => r matches Err(ConversionError::EncodingUndetermined),
            },
        },
{
    match declared {
        Some(d) => {
            if !d.as_str().is_empty() {
                return Ok(d);
            }
        },
        None => {},
    }
    match trial {
        Some(t) => Ok(t),
        None => Err(ConversionError::EncodingUndetermined),
    }
}

/// The entries of a field table whose source attribute is among `attrs`,
/// in their order.
pub open spec fn kept_fields(f: Seq<(Seq<char>, Seq<char>)>, attrs: Seq<String>) -> Seq<
    (Seq<char>, Seq<char>),
>
    decreases f.len(),
{
    if f.len() == 0 {
        Seq::empty()
    } else {
        let r = kept_fields(f.drop_last(), attrs);
        if strings_contain(attrs, f.last().1) {
            r.push(f.last())
        } else {
            r
        }
    }
}

fn contains_str(v: &Vec<String>, s: &str) -> (r: bool)
    ensures
        r == strings_contain(v@, s@),
{
    let mut i: usize = 0;
    while i < v.len()
        invariant
            i <= v.len(),
            forall|k: int| 0 <= k < i ==> (#[trigger] v@[k])@ != s@,
        decreases v.len() - i,
    {
        if is_word(v[i].as_str(), s) {
            assert((v@[i as int])@ == s@);
            return true;
        }
        i = i + 1;
    }
    false
}

/// Drops the entries of a field table whose source attribute the Shapefile
/// does not carry. Fails when none is left.
pub fn prune_fields(fields: &Vec<(String, String)>, attributes: &Vec<String>) -> (r: Result<
    Vec<(String, String)>,
    ConversionError,
>)
    ensures
        kept_fields(pairs_view(fields@), attributes@).len() == 0 ==> r matches Err(
            ConversionError::NoFields,
        ),
        kept_fields(pairs_view(fields@), attributes@).len() > 0 ==> (r matches Ok(v) && pairs_view(
            v@,
        ) == kept_fields(pairs_view(fields@), attributes@)),
{
    let ghost f = pairs_view(fields@);
    let mut out: Vec<(String, String)> = Vec::new();
    let mut i: usize = 0;
    while i < fields.len()
        invariant
            f == pairs_view(fields@),
            i <= fields.len(),
            pairs_view(out@) == kept_fields(f.subrange(0, i as int), attributes@),
        decreases fields.len() - i,
    {
        proof {
            assert(f.subrange(0, i + 1).drop_last() =~= f.subrange(0, i as int));
            assert(f.subrange(0, i + 1).last() == f[i as int]);
        }
        if contains_str(attributes, fields[i].1.as_str()) {
            let ghost prior = pairs_view(out@);
            out.push((fields[i].0.clone(), fields[i].1.clone()));
            proof {
                assert(pairs_view(out@) =~= prior.push(f[i as int]));
            }
        }
        i = i + 1;
    }
    proof {
        assert(f.subrange(0, i as int) =~= f);
    }
    if out.len() == 0 {
        Err(ConversionError::NoFields)
    } else {
        Ok(out)
    }
}

/// Pruning keeps an entry of the field table exactly when the Shapefile
/// carries its source attribute, and keeps the table's order; an output is
/// refused exactly when no entry is kept.
pub proof fn law_pruning_keeps_present_fields(
    f: Seq<(Seq<char>, Seq<char>)>,
    attrs: Seq<String>,
    p: (Seq<char>, Seq<char>),
)
    ensures
        kept_fields(f, attrs).contains(p) <==> (f.contains(p) && strings_contain(attrs, p.1)),
        kept_fields(f, attrs).len() == 0 <==> (forall|i: int|
            0 <= i < f.len() ==> !strings_contain(attrs, (#[trigger] f[i]).1)),
    decreases f.len(),
{
    if f.len() > 0 {
        let g = f.drop_last();
        law_pruning_keeps_present_fields(g, attrs, p);
        let r = kept_fields(g, attrs);
        assert(f =~= g.push(f.last()));
        if f.contains(p) {
            let i = choose|i: int| 0 <= i < f.len() && f[i] == p;
            if i < g.len() {
                assert(g[i] == p);
            }
        }
        if g.contains(p) {
            let i = choose|i: int| 0 <= i < g.len() && g[i] == p;
            assert(f[i] == p);
        }
        if strings_contain(attrs, f.last().1) {
            assert(r.push(f.last())[r.len() as int] == f.last());
            if r.push(f.last()).contains(p) && p != f.last() {
                let i = choose|i: int| 0 <= i < r.push(f.last()).len() && r.push(f.last())[i] == p;
                assert(r[i] == p);
            }
            if r.contains(p) {
                let i = choose|i: int| 0 <= i < r.len() && r[i] == p;
                assert(r.push(f.last())[i] == p);
            }
        }
        if kept_fields(f, attrs).len() == 0 {
            assert forall|i: int| 0 <= i < f.len() implies !strings_contain(
                attrs,
                (#[trigger] f[i]).1,
            ) by {
                if i < g.len() {
                    assert(f[i] == g[i]);
                }
            }
        }
        if forall|i: int| 0 <= i < f.len() ==> !strings_contain(attrs, (#[trigger] f[i]).1) {
            assert forall|i: int| 0 <= i < g.len() implies !strings_contain(
                attrs,
                (#[trigger] g[i]).1,
            ) by {
                assert(f[i] == g[i]);
            }
            assert(!strings_contain(attrs, f[f.len() - 1].1));
        }
    }
}

/// One Shapefile in a descriptor: its layer name (the file's stem), its
/// path, and the encoding to read its text with.
#[derive(Clone, Debug)]
pub struct VrtSource {
    pub layer_name: String,
    pub path: String,
    pub encoding: String,
}

impl VrtSource {
    pub fn new(path: &str, encoding: String) -> (r: VrtSource)
        ensures
            r.layer_name@ == file_stem(path@),
            r.path@ == path@,
            r.encoding@ == encoding@,
    {
        VrtSource { layer_name: file_stem_exec(path), path: String::from_str(path), encoding }
    }
}

/// The field elements of a descriptor layer, one per table entry.
pub open spec fn field_xml(f: Seq<(Seq<char>, Seq<char>)>) -> Seq<char>
    decreases f.len(),
{
    if f.len() == 0 {
        Seq::empty()
    } else {
        field_xml(f.drop_last()) + "<Field name=\""@ + f.last().0 + "\" src=\""@ + f.last().1
            + "\" />"@
    }
}

pub open spec fn layer_xml(s: VrtSource, fields: Seq<char>) -> Seq<char> {
    "<OGRVRTLayer name=\""@ + s.layer_name@ + "\"><SrcDataSource>"@ + s.path@
        + "</SrcDataSource><OpenOptions><OOI key=\"ENCODING\">"@ + s.encoding@
        + "</OOI></OpenOptions>"@ + fields + "</OGRVRTLayer>\n"@
}

pub open spec fn layers_xml(srcs: Seq<VrtSource>, fields: Seq<char>) -> Seq<char>
    decreases srcs.len(),
{
    if srcs.len() == 0 {
        Seq::empty()
    } else {
        layers_xml(srcs.drop_last(), fields) + layer_xml(srcs.last(), fields)
    }
}

/// A descriptor that unions the layers of all sources under one layer name,
/// each with the same field table.
pub open spec fn vrt_text(layer: Seq<char>, srcs: Seq<VrtSource>, fields: Seq<char>) -> Seq<char> {
    "<OGRVRTDataSource>\n<OGRVRTUnionLayer name=\""@ + layer + "\">\n"@ + layers_xml(srcs, fields)
        + "</OGRVRTUnionLayer>\n</OGRVRTDataSource>\n"@
}

fn field_xml_exec(f: &Vec<(String, String)>) -> (r: String)
    ensures
        r@ == field_xml(pairs_view(f@)),
{
    let ghost fv = pairs_view(f@);
    let mut out = String::new();
    let mut i: usize = 0;
    while i < f.len()
        invariant
            fv == pairs_view(f@),
            i <= f.len(),
            out@ == field_xml(fv.subrange(0, i as int)),
        decreases f.len() - i,
    {
        proof {
            assert(fv.subrange(0, i + 1).drop_last() =~= fv.subrange(0, i as int));
            assert(fv.subrange(0, i + 1).last() == fv[i as int]);
        }
        out.append("<Field name=\"");
        out.append(f[i].0.as_str());
        out.append("\" src=\"");
        out.append(f[i].1.as_str());
        out.append("\" />");
        i = i + 1;
    }
    proof {
        assert(fv.subrange(0, i as int) =~= fv);
    }
    out
}

/// Writes the descriptor that unions `sources` as the layer `layer_name`,
/// with the entries of `field_mappings` whose source attribute the first
/// Shapefile carries (`attributes`). Fails without sources, and when no
/// entry is left.
pub fn create_vrt(
    layer_name: &str,
    sources: &Vec<VrtSource>,
    field_mappings: &Vec<(String, String)>,
    attributes: &Vec<String>,
) -> (r: Result<String, ConversionError>)
    ensures
        sources.len() == 0 ==> r matches Err(ConversionError::NoInput),
        sources.len() > 0 && kept_fields(pairs_view(field_mappings@), attributes@).len() == 0
            ==> r matches Err(ConversionError::NoFields),
        sources.len() > 0 && kept_fields(pairs_view(field_mappings@), attributes@).len() > 0 ==> (
        r matches Ok(text) && text@ == vrt_text(
            layer_name@,
            sources@,
            field_xml(kept_fields(pairs_view(field_mappings@), attributes@)),
        )),
{
    if sources.len() == 0 {
        return Err(ConversionError::NoInput);
    }
    let kept = match prune_fields(field_mappings, attributes) {
        Ok(k) => k,
        Err(e) => return Err(e),
    };
    let fields = field_xml_exec(&kept);
    let mut layers = String::new();
    let mut i: usize = 0;
    while i < sources.len()
        invariant
            i <= sources.len(),
            layers@ == layers_xml(sources@.subrange(0, i as int), fields@),
        decreases sources.len() - i,
    {
        proof {
            assert(sources@.subrange(0, i + 1).drop_last() =~= sources@.subrange(0, i as int));
            assert(sources@.subrange(0, i + 1).last() == sources@[i as int]);
        }
        let s = &sources[i];
        layers.append("<OGRVRTLayer name=\"");
        layers.append(s.layer_name.as_str());
        layers.append("\"><SrcDataSource>");
        layers.append(s.path.as_str());
        layers.append("</SrcDataSource><OpenOptions><OOI key=\"ENCODING\">");
        layers.append(s.encoding.as_str());
        layers.append("</OOI></OpenOptions>");
        layers.append(fields.as_str());
        layers.append("</OGRVRTLayer>\n");
        proof {
            assert(layers@ =~= layers_xml(sources@.subrange(0, i as int), fields@) + layer_xml(
                sources@[i as int],
                fields@,
            ));
        }
        i = i + 1;
    }
    proof {
        assert(sources@.subrange(0, i as int) =~= sources@);
    }
    let mut out = String::from_str("<OGRVRTDataSource>\n<OGRVRTUnionLayer name=\"");
    out.append(layer_name);
    out.append("\">\n");
    out.append(layers.as_str());
    out.append("</OGRVRTUnionLayer>\n</OGRVRTDataSource>\n");
    proof {
        assert(out@ =~= vrt_text(layer_name@, sources@, fields@));
    }
    Ok(out)
}

fn push_str(v: &mut Vec<String>, s: &str)
    ensures
        strings_view(final(v)@) == strings_view(old(v)@).push(s@),
{
    let ghost prior = strings_view(v@);
    v.push(String::from_str(s));
    proof {
        assert(strings_view(v@) =~= prior.push(s@));
    }
}

/// The tool's arguments for loading a descriptor into PostGIS: multi-part
/// geometries in a column named `geom`, tables overwritten, bulk copy.
pub open spec fn postgres_load_args_spec(vrt: Seq<char>, url: Seq<char>) -> Seq<Seq<char>> {
    seq![
        "-f"@,
        "PostgreSQL"@,
        "PG:"@ + url,
        "-lco"@,
        "GEOM_TYPE=geometry"@,
        "-lco"@,
        "OVERWRITE=YES"@,
        "-lco"@,
        "GEOMETRY_NAME=geom"@,
        "-nlt"@,
        "PROMOTE_TO_MULTI"@,
        "--config"@,
        "PG_USE_COPY=YES"@,
        vrt,
    ]
}

pub fn postgres_load_args(vrt_path: &str, postgres_url: &str) -> (r: Vec<String>)
    ensures
        strings_view(r@) == postgres_load_args_spec(vrt_path@, postgres_url@),
{
    let mut v: Vec<String> = Vec::new();
    push_str(&mut v, "-f");
    push_str(&mut v, "PostgreSQL");
    let pg = String::from_str("PG:").concat(postgres_url);
    push_str(&mut v, pg.as_str());
    push_str(&mut v, "-lco");
    push_str(&mut v, "GEOM_TYPE=geometry");
    push_str(&mut v, "-lco");
    push_str(&mut v, "OVERWRITE=YES");
    push_str(&mut v, "-lco");
    push_str(&mut v, "GEOMETRY_NAME=geom");
    push_str(&mut v, "-nlt");
    push_str(&mut v, "PROMOTE_TO_MULTI");
    push_str(&mut v, "--config");
    push_str(&mut v, "PG_USE_COPY=YES");
    push_str(&mut v, vrt_path);
    proof {
        assert(strings_view(v@) =~= postgres_load_args_spec(vrt_path@, postgres_url@));
    }
    v
}

/// The tool's arguments for writing a descriptor to a file with a driver:
/// multi-part geometries in a column named `geom`, the file overwritten.
pub open spec fn file_load_args_spec(vrt: Seq<char>, driver: Seq<char>, out: Seq<char>) -> Seq<
    Seq<char>,
> {
    seq![
        "-f"@,
        driver,
        "-overwrite"@,
        "-nlt"@,
        "PROMOTE_TO_MULTI"@,
        "-lco"@,
        "GEOMETRY_NAME=geom"@,
        out,
        vrt,
    ]
}

pub fn file_load_args(vrt_path: &str, gdal_driver: &str, output_path: &str) -> (r: Vec<String>)
    ensures
        strings_view(r@) == file_load_args_spec(vrt_path@, gdal_driver@, output_path@),
{
    let mut v: Vec<String> = Vec::new();
    push_str(&mut v, "-f");
    push_str(&mut v, gdal_driver);
    push_str(&mut v, "-overwrite");
    push_str(&mut v, "-nlt");
    push_str(&mut v, "PROMOTE_TO_MULTI");
    push_str(&mut v, "-lco");
    push_str(&mut v, "GEOMETRY_NAME=geom");
    push_str(&mut v, output_path);
    push_str(&mut v, vrt_path);
    proof {
        assert(strings_view(v@) =~= file_load_args_spec(vrt_path@, gdal_driver@, output_path@));
    }
    v
}

/// The tool's arguments for asking PostGIS whether the table of an output
/// exists (its name in lower case).
pub open spec fn has_layer_args_spec(url: Seq<char>, layer: Seq<char>) -> Seq<Seq<char>> {
    seq![
        "-if"@,
        "postgresql"@,
        "PG:"@ + url,
        "-sql"@,
        "SELECT 1 FROM \""@ + lower_of(layer) + "\" LIMIT 1"@,
    ]
}

pub fn has_layer_args(postgres_url: &str, layer_name: &str) -> (r: Vec<String>)
    ensures
        strings_view(r@) == has_layer_args_spec(postgres_url@, layer_name@),
{
    let lower = to_lowercase(layer_name);
    let mut v: Vec<String> = Vec::new();
    push_str(&mut v, "-if");
    push_str(&mut v, "postgresql");
    let pg = String::from_str("PG:").concat(postgres_url);
    push_str(&mut v, pg.as_str());
    push_str(&mut v, "-sql");
    let sql = String::from_str("SELECT 1 FROM \"").concat(lower.as_str()).concat("\" LIMIT 1");
    push_str(&mut v, sql.as_str());
    proof {
        assert(strings_view(v@) =~= has_layer_args_spec(postgres_url@, layer_name@));
    }
    v
}

/// The outcome of one run of the tool: success, or a failure that carries
/// what the tool wrote to its error stream.
pub fn tool_outcome(success: bool, stderr: String) -> (r: Result<(), ConversionError>)
    ensures
        success ==> r is Ok,
        !success ==> (r matches Err(ConversionError::ToolInvocationFailed { stderr: e }) && e@
            == stderr@),
{
    if success {
        Ok(())
    } else {
        Err(ConversionError::ToolInvocationFailed { stderr })
    }
}

} // verus!
