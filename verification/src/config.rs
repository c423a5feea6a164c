//! Process configuration data: the caller-selected data-source mode, the
//! parsed command-line shape, and the backing-service URL each mode selects.

use vstd::prelude::*;
use crate::text::{append_chars, append_str, dec_str, string_of, u64_chars};

verus! {

broadcast use vstd::string::group_string_axioms;

/// Where schema and query metadata come from.
#[derive(Debug, Clone, PartialEq, Eq, Structural)]
pub enum DataSource {
    LocalIntrospect,
    LocalFile,
    Cloud,
}

/// The parsed command line: the data-source mode, the cloud endpoint when
/// in cloud mode, and the local service port.
#[derive(Debug, Clone)]
pub struct Args {
    pub source: DataSource,
    pub cloud_url: Option<String>,
    pub helix_port: u16,
}

/// The backing-service URL a mode selects: `http://host:port` for the two
/// local modes, the cloud URL for cloud mode, which has none to give when
/// the URL is missing.
pub open spec fn helix_url_of(
    source: DataSource,
    host: Seq<char>,
    port: u16,
    cloud_url: Option<Seq<char>>,
) -> Option<Seq<char>> {
    match source {
        DataSource::Cloud => cloud_url,
        _ => Some("http://"@ + host + seq![':'] + dec_str(port as int)),
    }
}

/// Select the backing-service URL for a data-source mode.
pub fn resolve_helix_url(
    source: &DataSource,
    host: &str,
    helix_port: u16,
    cloud_url: &Option<String>,
) -> (r: Option<String>)
    ensures
        ({
            let cu = match cloud_url {
                Some(u) => Some(u@),
                None => None,
            };
            match r {
                Some(u) => helix_url_of(*source, host@, helix_port, cu) == Some(u@),
                None => helix_url_of(*source, host@, helix_port, cu) is None,
            }
        }),
{
    match source {
        DataSource::Cloud => match cloud_url {
            Some(u) => Some(crate::json::clone_string(u)),
            None => None,
        },
        _ => {
            let mut w: Vec<char> = Vec::new();
            append_str(&mut w, "http://");
            append_str(&mut w, host);
            w.push(':');
            let digits = u64_chars(helix_port as u64);
            append_chars(&mut w, digits.as_slice());
            proof {
                assert(w@ =~= "http://"@ + host@ + seq![':'] + dec_str(helix_port as int));
            }
            Some(string_of(w.as_slice()))
        },
    }
}

} // verus!
