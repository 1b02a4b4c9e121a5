//! The catalog's description of a dataset, as the loader receives it.

use vstd::prelude::*;

verus! {

/// How the values of a coded attribute read: a list of constants, or a
/// table from code to meaning.
#[derive(Clone, Debug)]
pub enum RefType {
    Enum(Vec<String>),
    Code(Vec<(String, String)>),
}

/// One attribute of a dataset: its readable name, its name in the
/// Shapefile, what it means and its type.
#[derive(Clone, Debug)]
pub struct AttributeInfo {
    pub readable_name: String,
    pub attribute_name: String,
    pub description: String,
    pub attr_type: String,
    pub type_ref_url: Option<String>,
    pub reference: Option<RefType>,
}

/// One rendering of a dataset's subject (lines, points, polygons, ...),
/// loaded as an output of its own.
#[derive(Clone, Debug)]
pub struct Variant {
    pub variant_name: String,
    pub variant_identifier: String,
    pub geometry_type: Option<String>,
    pub geometry_description: Option<String>,
    pub shapefile_hint: Option<String>,
    pub attributes: Vec<AttributeInfo>,
}

/// One catalog entry together with the archives downloaded for it.
#[derive(Clone, Debug)]
pub struct Dataset {
    pub identifier: String,
    pub name: String,
    pub category1_name: String,
    pub category2_name: String,
    pub description: String,
    pub version: String,
    pub data_year: String,
    pub usage: String,
    pub source_url: String,
    pub variants: Vec<Variant>,
    pub attributes: Vec<AttributeInfo>,
    pub zip_file_paths: Vec<String>,
}

impl Dataset {
    pub fn identifier(&self) -> (r: String)
        ensures
            r@ == self.identifier@,
    {
        self.identifier.clone()
    }

    /// A one-line description of the entry for messages.
    pub fn display(&self) -> (r: String)
        ensures
            r@ == "Dataset identifier="@ + self.identifier@ + " url="@ + self.source_url@,
    {
        String::from_str("Dataset identifier=").concat(self.identifier.as_str()).concat(" url=").concat(
            self.source_url.as_str(),
        )
    }
}

/// Which catalog entries a run downloads and loads.
#[derive(Clone, Debug)]
pub struct Scraper {
    pub skip_dl: bool,
    pub filter_identifiers: Option<Vec<String>>,
    pub year: Option<Vec<u32>>,
}

pub open spec fn strings_contain(v: Seq<String>, s: Seq<char>) -> bool {
    exists|i: int| 0 <= i < v.len() && (#[trigger] v[i])@ == s
}

impl Scraper {
    /// Whether the entry `identifier` with terms of use `usage` is taken:
    /// entries for non-commercial use only are left out, and so are entries
    /// outside the identifier filter when there is one.
    pub fn accepts(&self, identifier: &str, usage: &str) -> (r: bool)
        ensures
            r == (usage@ != "非商用"@ && match &self.filter_identifiers {
                Some(f) => strings_contain(f@, identifier@),
                None => true,
            }),
    {
        if crate::output::is_word(usage, "非商用") {
            return false;
        }
        match &self.filter_identifiers {
            None => true,
            Some(f) => {
                let mut i: usize = 0;
                while i < f.len()
                    invariant
                        self.filter_identifiers == Some(*f),
                        usage@ != "非商用"@,
                        i <= f.len(),
                        forall|k: int| 0 <= k < i ==> (#[trigger] f@[k])@ != identifier@,
                    decreases f.len() - i,
                {
                    if crate::output::is_word(f[i].as_str(), identifier) {
                        assert((f@[i as int])@ == identifier@);
                        assert(strings_contain(f@, identifier@));
                        return true;
                    }
                    i = i + 1;
                }
                false
            },
        }
    }
}

/// Whether a catalog version is loaded: the one covering `year` when a
/// year is asked for, the most recent one otherwise.
pub fn select_version(most_recent: bool, start_year: u32, end_year: u32, year: Option<u32>) -> (r:
    bool)
    ensures
        r == match year {
            Some(y) => start_year <= y && y <= end_year,
            None => most_recent,
        },
{
    match year {
        Some(y) => start_year <= y && y <= end_year,
        None => most_recent,
    }
}

/// A file fetched into the scratch directory.
#[derive(Clone, Debug)]
pub struct DownloadedFile {
    pub path: String,
}

} // verus!
