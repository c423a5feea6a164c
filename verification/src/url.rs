//! URL assembly for the backing service client: resolving an endpoint
//! against a base URL, and building the base URL from host parts.

use vstd::prelude::*;
use crate::text::{
    append_chars, append_str, chars_of, dec_str, slice_starts_with, starts_with, string_of,
    strip_end_reps, strip_end_reps_slice, strip_start_reps, strip_start_reps_slice, u64_chars,
};

verus! {

broadcast use vstd::string::group_string_axioms;

/// A full URL passes through; anything else is joined to the base with
/// exactly one slash between them.
pub open spec fn resolved_url(base: Seq<char>, e: Seq<char>) -> Seq<char> {
    if starts_with(e, "http://"@) || starts_with(e, "https://"@) {
        e
    } else {
        strip_end_reps(base, seq!['/']) + seq!['/'] + strip_start_reps(e, seq!['/'])
    }
}

/// Resolve an endpoint against a base URL: full URLs pass through, relative
/// endpoints are appended behind a single slash.
pub fn resolve_url(base_url: &str, url_or_endpoint: &str) -> (r: String)
    ensures
        r@ == resolved_url(base_url@, url_or_endpoint@),
{
    let e = chars_of(url_or_endpoint);
    let hp = chars_of("http://");
    let hsp = chars_of("https://");
    proof {
        assert(hp@ == "http://"@ && hsp@ == "https://"@);
    }
    if slice_starts_with(e.as_slice(), hp.as_slice()) || slice_starts_with(
        e.as_slice(),
        hsp.as_slice(),
    ) {
        string_of(e.as_slice())
    } else {
        let b = chars_of(base_url);
        let slash: Vec<char> = vec!['/'];
        proof {
            assert(slash@ =~= seq!['/']);
        }
        let base_part = strip_end_reps_slice(b.as_slice(), slash.as_slice());
        let end_part = strip_start_reps_slice(e.as_slice(), slash.as_slice());
        let mut w: Vec<char> = Vec::new();
        append_chars(&mut w, base_part);
        w.push('/');
        append_chars(&mut w, end_part);
        proof {
            assert(w@ =~= resolved_url(base_url@, url_or_endpoint@));
        }
        string_of(w.as_slice())
    }
}

/// The base URL a client is built with: the endpoint, or `http://localhost`
/// when none is given, with `:port` appended when a port is given.
pub open spec fn base_url_of(endpoint: Option<Seq<char>>, port: Option<u16>) -> Seq<char> {
    (match endpoint {
        Some(e) => e,
        None => "http://localhost"@,
    }) + (match port {
        Some(p) => seq![':'] + dec_str(p as int),
        None => Seq::<char>::empty(),
    })
}

/// Build a client base URL from an optional endpoint and port.
pub fn client_base_url(endpoint: Option<&str>, port: Option<u16>) -> (r: String)
    ensures
        r@ == base_url_of(
            match endpoint {
                Some(e) => Some(e@),
                None => None,
            },
            port,
        ),
{
    let mut w: Vec<char> = Vec::new();
    match endpoint {
        Some(e) => {
            append_str(&mut w, e);
        },
        None => {
            append_str(&mut w, "http://localhost");
        },
    }
    match port {
        Some(p) => {
            w.push(':');
            let digits = u64_chars(p as u64);
            append_chars(&mut w, digits.as_slice());
        },
        None => {},
    }
    proof {
        assert(w@ =~= base_url_of(
            match endpoint {
                Some(e) => Some(e@),
                None => None,
            },
            port,
        ));
    }
    string_of(w.as_slice())
}

} // verus!
