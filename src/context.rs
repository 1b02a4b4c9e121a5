//! The scratch directory of a run, handed to each component explicitly.

use crate::output::{join_path, joined, set_extension, with_extension};
use crate::text::{lower_of, to_lowercase};
use vstd::prelude::*;

verus! {

/// The settings of a run as given on the command line.
#[derive(Clone, Debug)]
pub struct Cli {
    /// The output format: a PostGIS name or a driver of the conversion tool.
    pub output_format: String,
    /// The connection string, or the output directory.
    pub output_destination: String,
    /// The scratch directory, when not `./tmp`.
    pub tmp_dir: Option<String>,
    /// Use the archives downloaded before.
    pub skip_download: bool,
    /// Skip outputs that the destination has already.
    pub skip_if_exists: bool,
    /// Load only these datasets.
    pub filter_identifiers: Option<Vec<String>>,
    /// Load the versions of this year.
    pub year: Option<u32>,
}

/// Why the scratch directory could not be set.
#[derive(Clone, Copy, Debug, PartialEq, Eq, Structural)]
pub enum ContextError {
    /// It was set before.
    AlreadySet,
}

/// The scratch directory of a run: `./tmp` unless set once.
#[derive(Clone, Debug)]
pub struct Context {
    pub tmp_dir: Option<String>,
}

pub open spec fn tmp_of(c: Context) -> Seq<char> {
    match c.tmp_dir {
        Some(t) => t@,
        None => "./tmp"@,
    }
}

impl Context {
    pub fn new() -> (r: Context)
        ensures
            r.tmp_dir is None,
    {
        Context { tmp_dir: None }
    }
}

/// The scratch directory used when none is set.
pub fn default_tmp() -> (r: String)
    ensures
        r@ == "./tmp"@,
{
    String::from_str("./tmp")
}

/// Sets the scratch directory; it can be set once.
pub fn set_tmp(ctx: &mut Context, tmp: String) -> (r: Result<(), ContextError>)
    ensures
        old(ctx).tmp_dir is Some ==> r == Err::<(), ContextError>(ContextError::AlreadySet)
            && final(ctx).tmp_dir == old(ctx).tmp_dir,
        old(ctx).tmp_dir is None ==> r is Ok && final(ctx).tmp_dir == Some(tmp),
{
    if ctx.tmp_dir.is_some() {
        return Err(ContextError::AlreadySet);
    }
    ctx.tmp_dir = Some(tmp);
    Ok(())
}

/// The scratch directory.
pub fn tmp(ctx: &Context) -> (r: String)
    ensures
        r@ == tmp_of(*ctx),
{
    match &ctx.tmp_dir {
        Some(t) => t.clone(),
        None => default_tmp(),
    }
}

/// Where the extracted Shapefiles go: `shp` under the scratch directory.
pub fn shp_dir(ctx: &Context) -> (r: String)
    ensures
        r@ == joined(tmp_of(*ctx), "shp"@),
{
    join_path(tmp(ctx).as_str(), "shp")
}

/// Where the descriptors go: `vrt` under the scratch directory.
pub fn vrt_dir(ctx: &Context) -> (r: String)
    ensures
        r@ == joined(tmp_of(*ctx), "vrt"@),
{
    join_path(tmp(ctx).as_str(), "vrt")
}

/// The descriptor of the output `identifier`: its lower-case name with the
/// extension `vrt`, under the descriptor directory.
pub fn vrt_path(ctx: &Context, identifier: &str) -> (r: String)
    ensures
        r@ == with_extension(joined(joined(tmp_of(*ctx), "vrt"@), lower_of(identifier@)), "vrt"@),
{
    let dir = vrt_dir(ctx);
    let lower = to_lowercase(identifier);
    let p = join_path(dir.as_str(), lower.as_str());
    set_extension(p.as_str(), "vrt")
}

} // verus!
