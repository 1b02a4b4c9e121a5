//! Loading pipeline for the Japanese national land numerical information
//! catalog: naming-template matchers, mapping resolution, archive extraction
//! planning, conversion descriptors and the load scheduler's decisions.

pub mod archive;
pub mod catalog;
pub mod context;
pub mod conversion;
pub mod mapping;
pub mod output;
pub mod scheduler;
pub mod schema;
pub mod sheet;
pub mod template;
pub mod text;
pub mod years;
