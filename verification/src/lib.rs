//! Core library for a dashboard backend over a graph database: a type grammar
//! with string-to-JSON value coercion, schema and query text parsers, a
//! parameter merge engine, and a JSON key canonicalizer.

use vstd::prelude::*;

pub mod coerce;
pub mod config;
pub mod errors;
pub mod helix_types;
pub mod json;
pub mod params;
pub mod query;
pub mod schema;
pub mod smap;
pub mod text;
pub mod url;
pub mod webutil;

verus! {

/// Largest pagination limit a request may ask for.
pub const MAX_LIMIT: u32 = 300;

/// Default port the backend web server listens on.
pub const DEFAULT_BACKEND_PORT: u16 = 8080;

/// Default host for the backing graph service.
pub const DEFAULT_HOST: &'static str = "localhost";

/// Location of the schema definition text in local-file mode.
pub const SCHEMA_FILE_PATH: &'static str = "helixdb-cfg/schema.hx";

/// Location of the query definition text in local-file mode.
pub const QUERIES_FILE_PATH: &'static str = "helixdb-cfg/queries.hx";

/// Keep a pagination limit only when it does not exceed `MAX_LIMIT`.
pub fn validate_limit(limit: Option<u32>) -> (r: Option<u32>)
    ensures
        r == (match limit {
            Some(l) => if l <= MAX_LIMIT { Some(l) } else { None::<u32> },
            None => None::<u32>,
        }),
{
    match limit {
        Some(l) => if l <= MAX_LIMIT { Some(l) } else { None },
        None => None,
    }
}

} // verus!
