//! Where the loaded data goes: a PostGIS database or files of a format
//! that the conversion tool writes.

use crate::text::{chars_of, string_of, trim, trim_exec};
use vstd::prelude::*;

verus! {

/// An ASCII letter or digit.
pub open spec fn is_ascii_alnum(c: char) -> bool {
    ('0' <= c && c <= '9') || ('a' <= c && c <= 'z') || ('A' <= c && c <= 'Z')
}

/// `c` in lower case when it is an ASCII capital.
pub open spec fn to_lower(c: char) -> char {
    if 'A' <= c && c <= 'Z' {
        ((c as u8) + 32u8) as char
    } else {
        c
    }
}

pub fn to_lower_exec(c: char) -> (r: char)
    ensures
        r == to_lower(c),
{
    if 'A' <= c && c <= 'Z' {
        ((c as u8) + 32u8) as char
    } else {
        c
    }
}


/// Where a run writes its output.
#[derive(Clone, Debug)]
pub enum OutputTarget {
    Postgres { postgres_url: String },
    File { output_dir: String, gdal_driver: String, file_extension: String },
}

/// `format` without surrounding white space, in ASCII lower case.
pub open spec fn normalized_format(format: Seq<char>) -> Seq<char> {
    trim(format).map_values(|c: char| to_lower(c))
}

pub open spec fn is_postgres_name(n: Seq<char>) -> bool {
    n == "postgres"@ || n == "postgresql"@ || n == "postgis"@ || n == "pg"@
}

/// Letters and digits in lower case, each other run of characters as one `_`.
pub open spec fn collapsed(s: Seq<char>) -> Seq<char>
    decreases s.len(),
{
    if s.len() == 0 {
        Seq::empty()
    } else {
        let r = collapsed(s.drop_last());
        let c = s.last();
        if is_ascii_alnum(c) {
            r.push(to_lower(c))
        } else if r.len() > 0 && r.last() == '_' {
            r
        } else {
            r.push('_')
        }
    }
}

pub open spec fn strip_underscores(s: Seq<char>) -> Seq<char> {
    let a = if s.len() > 0 && s[0] == '_' {
        s.drop_first()
    } else {
        s
    };
    if a.len() > 0 && a.last() == '_' {
        a.drop_last()
    } else {
        a
    }
}

/// The extension slug of a format name that has no extension of its own.
pub open spec fn extension_slug(s: Seq<char>) -> Seq<char> {
    let r = strip_underscores(collapsed(s));
    if r.len() == 0 {
        "gdal"@
    } else {
        r
    }
}

/// The file extension of a normalized format name.
pub open spec fn extension_for(n: Seq<char>) -> Seq<char> {
    if n == "geoparquet"@ || n == "parquet"@ {
        "parquet"@
    } else if n == "geojson"@ || n == "geojsonseq"@ {
        "geojson"@
    } else if n == "flatgeobuf"@ {
        "fgb"@
    } else {
        extension_slug(n)
    }
}

fn eq_chars(a: &[char], b: &[char]) -> (r: bool)
    ensures
        r == (a@ == b@),
{
    if a.len() != b.len() {
        return false;
    }
    let mut i: usize = 0;
    while i < a.len()
        invariant
            a.len() == b.len(),
            i <= a.len(),
            forall|k: int| 0 <= k < i ==> a@[k] == b@[k],
        decreases a.len() - i,
    {
        if a[i] != b[i] {
            return false;
        }
        i = i + 1;
    }
    assert(a@ =~= b@);
    true
}

/// Whether `s` spells the literal `lit`.
pub(crate) fn is_word(s: &str, lit: &str) -> (r: bool)
    ensures
        r == (s@ == lit@),
{
    eq_chars(&chars_of(s), &chars_of(lit))
}

/// Trims a format name and lower-cases its ASCII letters.
pub fn normalize_format(format: &str) -> (r: String)
    ensures
        r@ == normalized_format(format@),
{
    let t = trim_exec(&chars_of(format));
    let mut out: Vec<char> = Vec::new();
    let mut i: usize = 0;
    while i < t.len()
        invariant
            i <= t.len(),
            out@ == t@.subrange(0, i as int).map_values(|c: char| to_lower(c)),
        decreases t.len() - i,
    {
        out.push(to_lower_exec(t[i]));
        proof {
            assert(out@ =~= t@.subrange(0, i + 1).map_values(|c: char| to_lower(c)));
        }
        i = i + 1;
    }
    proof {
        assert(t@.subrange(0, t.len() as int) =~= t@);
    }
    string_of(&out)
}

/// Whether a normalized format name means a PostGIS database.
pub fn is_postgres_format(normalized: &str) -> (r: bool)
    ensures
        r == is_postgres_name(normalized@),
{
    is_word(normalized, "postgres") || is_word(normalized, "postgresql") || is_word(
        normalized,
        "postgis",
    ) || is_word(normalized, "pg")
}

fn is_ascii_alnum_exec(c: char) -> (r: bool)
    ensures
        r == is_ascii_alnum(c),
{
    ('0' <= c && c <= '9') || ('a' <= c && c <= 'z') || ('A' <= c && c <= 'Z')
}

/// Turns a format name into an extension: ASCII letters and digits in lower
/// case, every other run as one `_`, no `_` at either end, and `gdal` when
/// nothing is left.
pub fn normalize_extension(input: &str) -> (r: String)
    ensures
        r@ == extension_slug(input@),
{
    let v = chars_of(input);
    let mut out: Vec<char> = Vec::new();
    let mut i: usize = 0;
    while i < v.len()
        invariant
            i <= v.len(),
            out@ == collapsed(v@.subrange(0, i as int)),
        decreases v.len() - i,
    {
        let c = v[i];
        proof {
            assert(v@.subrange(0, i + 1).drop_last() =~= v@.subrange(0, i as int));
        }
        if is_ascii_alnum_exec(c) {
            out.push(to_lower_exec(c));
        } else if out.len() > 0 && out[out.len() - 1] == '_' {
        } else {
            out.push('_');
        }
        i = i + 1;
    }
    proof {
        assert(v@.subrange(0, v.len() as int) =~= v@);
    }
    let ghost col = out@;
    let mut start: usize = 0;
    if out.len() > 0 && out[0] == '_' {
        start = 1;
    }
    let mut end: usize = out.len();
    if end > start && out[end - 1] == '_' {
        end = end - 1;
    }
    let mut res: Vec<char> = Vec::new();
    let mut k = start;
    while k < end
        invariant
            start <= k <= end <= out.len(),
            res@ == out@.subrange(start as int, k as int),
        decreases end - k,
    {
        res.push(out[k]);
        proof {
            assert(res@ =~= out@.subrange(start as int, k + 1));
        }
        k = k + 1;
    }
    proof {
        assert(res@ =~= strip_underscores(col));
    }
    if res.len() == 0 {
        String::from_str("gdal")
    } else {
        string_of(&res)
    }
}

/// The file extension for a normalized format name: the usual one for
/// known formats, a slug of the name otherwise.
pub fn file_extension_for_format(normalized: &str) -> (r: String)
    ensures
        r@ == extension_for(normalized@),
{
    if is_word(normalized, "geoparquet") || is_word(normalized, "parquet") {
        String::from_str("parquet")
    } else if is_word(normalized, "geojson") || is_word(normalized, "geojsonseq") {
        String::from_str("geojson")
    } else if is_word(normalized, "flatgeobuf") {
        String::from_str("fgb")
    } else {
        normalize_extension(normalized)
    }
}

/// Reads the output settings: a PostGIS format name makes `destination` the
/// connection string; any other format writes files of that format under
/// `destination`.
pub fn parse_output_target(format: &str, destination: &str) -> (r: OutputTarget)
    ensures
        is_postgres_name(normalized_format(format@)) ==> (r matches OutputTarget::Postgres {
            postgres_url,
        } && postgres_url@ == destination@),
        !is_postgres_name(normalized_format(format@)) ==> (r matches OutputTarget::File {
            output_dir,
            gdal_driver,
            file_extension,
        } && output_dir@ == destination@ && gdal_driver@ == format@ && file_extension@
            == extension_for(normalized_format(format@))),
{
    let normalized = normalize_format(format);
    if is_postgres_format(normalized.as_str()) {
        return OutputTarget::Postgres { postgres_url: String::from_str(destination) };
    }
    let extension = file_extension_for_format(normalized.as_str());
    OutputTarget::File {
        output_dir: String::from_str(destination),
        gdal_driver: String::from_str(format),
        file_extension: extension,
    }
}

/// The last position of `c` in `s`.
pub open spec fn last_index_of(s: Seq<char>, c: char) -> Option<int>
    decreases s.len(),
{
    if s.len() == 0 {
        None
    } else if s.last() == c {
        Some(s.len() - 1)
    } else {
        last_index_of(s.drop_last(), c)
    }
}

/// `name` under the directory `dir`.
pub open spec fn joined(dir: Seq<char>, name: Seq<char>) -> Seq<char> {
    if dir.len() == 0 {
        name
    } else if dir.last() == '/' {
        dir + name
    } else {
        dir + seq!['/'] + name
    }
}

/// `path` with the extension of its last segment set to `ext` (a dot that
/// starts the segment begins no extension).
pub open spec fn with_extension(path: Seq<char>, ext: Seq<char>) -> Seq<char> {
    let seg = match last_index_of(path, '/') {
        Some(i) => i + 1,
        None => 0,
    };
    let dot_ext = if ext.len() == 0 {
        Seq::empty()
    } else {
        seq!['.'] + ext
    };
    match last_index_of(path, '.') {
        Some(d) => if d > seg {
            path.subrange(0, d) + dot_ext
        } else {
            path + dot_ext
        },
        None => path + dot_ext,
    }
}

pub(crate) fn last_index_of_exec(v: &[char], c: char) -> (r: Option<usize>)
    ensures
        r matches Some(i) ==> i < v.len() && last_index_of(v@, c) == Some(i as int),
        r is None ==> last_index_of(v@, c) is None,
{
    let mut k = v.len();
    assert(v@.subrange(0, k as int) =~= v@);
    while k > 0
        invariant
            k <= v.len(),
            last_index_of(v@, c) == last_index_of(v@.subrange(0, k as int), c),
        decreases k,
    {
        proof {
            assert(v@.subrange(0, k as int).drop_last() =~= v@.subrange(0, k - 1));
        }
        if v[k - 1] == c {
            return Some(k - 1);
        }
        k = k - 1;
    }
    None
}

pub fn join_path(dir: &str, name: &str) -> (r: String)
    ensures
        r@ == joined(dir@, name@),
{
    let d = chars_of(dir);
    if d.len() == 0 {
        String::from_str(name)
    } else if d[d.len() - 1] == '/' {
        String::from_str(dir).concat(name)
    } else {
        let r = String::from_str(dir).concat("/").concat(name);
        proof {
            reveal_strlit("/");
            assert(r@ =~= dir@ + seq!['/'] + name@);
        }
        r
    }
}

pub fn set_extension(path: &str, ext: &str) -> (r: String)
    ensures
        r@ == with_extension(path@, ext@),
{
    let v = chars_of(path);
    let e = chars_of(ext);
    let seg = match last_index_of_exec(&v, '/') {
        Some(i) => i + 1,
        None => 0,
    };
    let mut out: Vec<char> = Vec::new();
    let stop = match last_index_of_exec(&v, '.') {
        Some(d) => if d > seg {
            d
        } else {
            v.len()
        },
        None => v.len(),
    };
    let mut i: usize = 0;
    while i < stop
        invariant
            stop <= v.len(),
            i <= stop,
            out@ == v@.subrange(0, i as int),
        decreases stop - i,
    {
        out.push(v[i]);
        proof {
            assert(out@ =~= v@.subrange(0, i + 1));
        }
        i = i + 1;
    }
    let ghost base = out@;
    if e.len() > 0 {
        out.push('.');
        let mut j: usize = 0;
        while j < e.len()
            invariant
                j <= e.len(),
                out@ == base + seq!['.'] + e@.subrange(0, j as int),
            decreases e.len() - j,
        {
            out.push(e[j]);
            proof {
                assert(out@ =~= base + seq!['.'] + e@.subrange(0, j + 1));
            }
            j = j + 1;
        }
        proof {
            assert(e@.subrange(0, e.len() as int) =~= e@);
        }
    }
    proof {
        assert(v@.subrange(0, v.len() as int) =~= v@);
        if e.len() == 0 {
            assert(out@ =~= base + Seq::<char>::empty());
        }
    }
    string_of(&out)
}

/// The last segment of a path.
pub open spec fn last_segment(p: Seq<char>) -> Seq<char> {
    match last_index_of(p, '/') {
        Some(i) => p.subrange(i + 1, p.len() as int),
        None => p,
    }
}

/// The name of a file without its directory and extension.
pub open spec fn file_stem(p: Seq<char>) -> Seq<char> {
    last_segment(with_extension(p, Seq::empty()))
}

pub(crate) fn file_stem_exec(path: &str) -> (r: String)
    ensures
        r@ == file_stem(path@),
{
    let no_ext = set_extension(path, "");
    proof {
        reveal_strlit("");
        assert(""@ =~= Seq::<char>::empty());
    }
    let v = chars_of(no_ext.as_str());
    let start = match last_index_of_exec(&v, '/') {
        Some(i) => i + 1,
        None => 0,
    };
    let mut out: Vec<char> = Vec::new();
    let mut k = start;
    while k < v.len()
        invariant
            start <= k <= v.len(),
            out@ == v@.subrange(start as int, k as int),
        decreases v.len() - k,
    {
        out.push(v[k]);
        proof {
            assert(out@ =~= v@.subrange(start as int, k + 1));
        }
        k = k + 1;
    }
    proof {
        if start == 0 {
            assert(v@.subrange(0, v.len() as int) =~= v@);
        }
    }
    string_of(&out)
}

impl OutputTarget {
    pub fn postgres_url(&self) -> (r: Option<&str>)
        ensures
            match self {
                OutputTarget::Postgres { postgres_url } => r matches Some(u) && u@ == postgres_url@,
                _ => r is None,
            },
    {
        match self {
            OutputTarget::Postgres { postgres_url } => Some(postgres_url.as_str()),
            _ => None,
        }
    }

    pub fn output_dir(&self) -> (r: Option<&str>)
        ensures
            match self {
                OutputTarget::File { output_dir, .. } => r matches Some(u) && u@ == output_dir@,
                _ => r is None,
            },
    {
        match self {
            OutputTarget::File { output_dir, .. } => Some(output_dir.as_str()),
            _ => None,
        }
    }

    pub fn gdal_driver(&self) -> (r: Option<&str>)
        ensures
            match self {
                OutputTarget::File { gdal_driver, .. } => r matches Some(u) && u@ == gdal_driver@,
                _ => r is None,
            },
    {
        match self {
            OutputTarget::File { gdal_driver, .. } => Some(gdal_driver.as_str()),
            _ => None,
        }
    }

    pub fn file_extension(&self) -> (r: Option<&str>)
        ensures
            match self {
                OutputTarget::File { file_extension, .. } => r matches Some(u) && u@
                    == file_extension@,
                _ => r is None,
            },
    {
        match self {
            OutputTarget::File { file_extension, .. } => Some(file_extension.as_str()),
            _ => None,
        }
    }

    /// The file that the output `identifier` is written to, for file targets.
    pub fn output_path(&self, identifier: &str) -> (r: Option<String>)
        ensures
            match self {
                OutputTarget::File { output_dir, file_extension, .. } => r matches Some(p) && p@
                    == with_extension(joined(output_dir@, identifier@), file_extension@),
                _ => r is None,
            },
    {
        let output_dir = match self.output_dir() {
            Some(d) => d,
            None => return None,
        };
        let extension = match self.file_extension() {
            Some(e) => e,
            None => return None,
        };
        let p = join_path(output_dir, identifier);
        Some(set_extension(p.as_str(), extension))
    }
}

} // verus!
