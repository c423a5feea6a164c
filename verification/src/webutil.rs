//! Response-shaping helpers: the HTTP verb convention on raw query names,
//! endpoint descriptions derived from introspection payloads, and the fixed
//! error payloads handed back when the backing service cannot be reached.

use vstd::prelude::*;
use vstd::string::StringExecFns;
use crate::json::{jm, jm_fields, lemma_jm_fields, JsonModel, JsonValue};
use crate::query::{params_model, rust_name_of, ApiEndpointInfo, EndpointModel, QueryParameter};
use crate::text::{append_str, chars_of, slice_starts_with, starts_with, string_of};

verus! {

broadcast use vstd::string::group_string_axioms, vstd::std_specs::vec::group_vec_axioms;

/// The HTTP verb chosen from a raw query name by prefix.
pub open spec fn http_method_raw(n: Seq<char>) -> Seq<char> {
    if starts_with(n, "create"@) || starts_with(n, "add"@) || starts_with(n, "assign"@) {
        "POST"@
    } else if starts_with(n, "update"@) {
        "PUT"@
    } else if starts_with(n, "delete"@) || starts_with(n, "remove"@) {
        "DELETE"@
    } else {
        "GET"@
    }
}

/// The HTTP verb for a query name: `create`/`add`/`assign` post, `update`
/// puts, `delete`/`remove` delete, everything else gets.
pub fn determine_http_method(query_name: &str) -> (r: &'static str)
    ensures
        r@ == http_method_raw(query_name@),
{
    let v = chars_of(query_name);
    if slice_starts_with(v.as_slice(), chars_of("create").as_slice()) || slice_starts_with(
        v.as_slice(),
        chars_of("add").as_slice(),
    ) || slice_starts_with(v.as_slice(), chars_of("assign").as_slice()) {
        "POST"
    } else if slice_starts_with(v.as_slice(), chars_of("update").as_slice()) {
        "PUT"
    } else if slice_starts_with(v.as_slice(), chars_of("delete").as_slice()) || slice_starts_with(
        v.as_slice(),
        chars_of("remove").as_slice(),
    ) {
        "DELETE"
    } else {
        "GET"
    }
}

/// One query of an introspection payload: its name, and its parameters as
/// an arbitrary JSON value.
#[derive(Debug)]
pub struct IntrospectQuery {
    pub name: String,
    pub parameters: JsonValue,
}

/// The typed parameters read from an introspection object: one per field,
/// string-valued fields give their text, anything else falls back to
/// `String`; types are mapped into the Rust vocabulary.
pub open spec fn introspect_params(fields: Seq<(Seq<char>, JsonModel)>) -> Seq<
    (Seq<char>, Seq<char>),
>
    decreases fields.len(),
{
    if fields.len() == 0 {
        Seq::empty()
    } else {
        introspect_params(fields.drop_last()) + seq![
            (
                fields.last().0,
                rust_name_of(
                    match fields.last().1 {
                        JsonModel::Str(t) => t,
                        _ => "String"@,
                    },
                ),
            ),
        ]
    }
}

/// The endpoint description of an introspected query: the raw name under
/// `/api/query/`, the raw-name verb convention, and the parameters read
/// from the payload when it is an object.
pub open spec fn endpoint_of_introspect(name: Seq<char>, params: JsonModel) -> EndpointModel {
    EndpointModel {
        path: "/api/query/"@ + name,
        method: http_method_raw(name),
        query_name: name,
        parameters: match params {
            JsonModel::Object(fields) => introspect_params(fields),
            _ => Seq::empty(),
        },
    }
}

/// Describe the endpoint of an introspected query.
#[verifier::loop_isolation(false)]
pub fn map_query_to_endpoint(query: IntrospectQuery) -> (r: ApiEndpointInfo)
    ensures
        r@ == endpoint_of_introspect(query.name@, query.parameters@),
{
    let method = determine_http_method(query.name.as_str());
    let mut path: Vec<char> = Vec::new();
    append_str(&mut path, "/api/query/");
    append_str(&mut path, query.name.as_str());
    let mut parameters: Vec<QueryParameter> = Vec::new();
    match &query.parameters {
        JsonValue::Object(fields) => {
            let ghost fm = jm_fields(fields@);
            proof {
                lemma_jm_fields(fields@);
                assert(introspect_params(fm.take(0)) =~= Seq::<(Seq<char>, Seq<char>)>::empty());
                assert(params_model(parameters@) =~= introspect_params(fm.take(0)));
            }
            let n = fields.len();
            let mut i: usize = 0;
            while i < n
                invariant
                    i <= n,
                    params_model(parameters@) == introspect_params(fm.take(i as int)),
                decreases n - i,
            {
                let ghost old_p = parameters@;
                let name_i = crate::json::clone_string(&fields[i].0);
                let tname = match &fields[i].1 {
                    JsonValue::Str(t) => crate::json::clone_string(t),
                    _ => String::from_str("String"),
                };
                let qp = QueryParameter::new(name_i, tname);
                parameters.push(qp);
                i = i + 1;
                proof {
                    assert(fm.take(i as int).drop_last() =~= fm.take(i - 1));
                    assert(fm.take(i as int).last() == fm[i - 1]);
                    assert(fm[i - 1] == (fields@[i - 1].0@, jm(fields@[i - 1].1)));
                    assert(params_model(parameters@) =~= introspect_params(fm.take(i as int)));
                }
            }
            proof {
                assert(fm.take(n as int) =~= fm);
            }
        },
        _ => {
            proof {
                assert(params_model(parameters@) =~= Seq::<(Seq<char>, Seq<char>)>::empty());
            }
        },
    }
    ApiEndpointInfo {
        path: string_of(path.as_slice()),
        method: String::from_str(method),
        query_name: query.name,
        parameters,
    }
}

/// The empty nodes/edges/vectors payload handed back on a failed fetch.
pub fn create_default_error_data() -> (r: JsonValue)
    ensures
        r@ == JsonModel::Object(
            seq![
                ("nodes"@, JsonModel::Array(Seq::empty())),
                ("edges"@, JsonModel::Array(Seq::empty())),
                ("vectors"@, JsonModel::Array(Seq::empty())),
            ],
        ),
{
    let mut fields: Vec<(String, JsonValue)> = Vec::new();
    fields.push((String::from_str("nodes"), JsonValue::Array(Vec::new())));
    fields.push((String::from_str("edges"), JsonValue::Array(Vec::new())));
    fields.push((String::from_str("vectors"), JsonValue::Array(Vec::new())));
    let r = JsonValue::Object(fields);
    proof {
        let target = seq![
            ("nodes"@, JsonModel::Array(Seq::<JsonModel>::empty())),
            ("edges"@, JsonModel::Array(Seq::<JsonModel>::empty())),
            ("vectors"@, JsonModel::Array(Seq::<JsonModel>::empty())),
        ];
        match &r {
            JsonValue::Object(fs) => {
                crate::json::lemma_jm_fields(fs@);
                assert(jm_fields(fs@) =~= target);
                assert(r@ == JsonModel::Object(target));
            },
            _ => {},
        }
    }
    r
}

/// The empty connections payload handed back on a failed fetch.
pub fn create_node_connections_error_data() -> (r: JsonValue)
    ensures
        r@ == JsonModel::Object(
            seq![
                (
                    "connected_nodes"@,
                    JsonModel::Object(seq![("values"@, JsonModel::Array(Seq::empty()))]),
                ),
                (
                    "incoming_edges"@,
                    JsonModel::Object(seq![("values"@, JsonModel::Array(Seq::empty()))]),
                ),
                (
                    "outgoing_edges"@,
                    JsonModel::Object(seq![("values"@, JsonModel::Array(Seq::empty()))]),
                ),
            ],
        ),
{
    let mut fields: Vec<(String, JsonValue)> = Vec::new();
    let mut inner1: Vec<(String, JsonValue)> = Vec::new();
    inner1.push((String::from_str("values"), JsonValue::Array(Vec::new())));
    fields.push((String::from_str("connected_nodes"), JsonValue::Object(inner1)));
    let mut inner2: Vec<(String, JsonValue)> = Vec::new();
    inner2.push((String::from_str("values"), JsonValue::Array(Vec::new())));
    fields.push((String::from_str("incoming_edges"), JsonValue::Object(inner2)));
    let mut inner3: Vec<(String, JsonValue)> = Vec::new();
    inner3.push((String::from_str("values"), JsonValue::Array(Vec::new())));
    fields.push((String::from_str("outgoing_edges"), JsonValue::Object(inner3)));
    let r = JsonValue::Object(fields);
    proof {
        let inner = seq![("values"@, JsonModel::Array(Seq::<JsonModel>::empty()))];
        let target = seq![
            ("connected_nodes"@, JsonModel::Object(inner)),
            ("incoming_edges"@, JsonModel::Object(inner)),
            ("outgoing_edges"@, JsonModel::Object(inner)),
        ];
        match &r {
            JsonValue::Object(fs) => {
                crate::json::lemma_jm_fields(fs@);
                assert forall|j: int| 0 <= j < fs@.len() implies #[trigger] jm_fields(fs@)[j]
                    == target[j] by {
                    match fs@[j].1 {
                        JsonValue::Object(inner_fs) => {
                            crate::json::lemma_jm_fields(inner_fs@);
                            assert(jm_fields(inner_fs@) =~= inner);
                        },
                        _ => {},
                    }
                }
                assert(jm_fields(fs@) =~= target);
                assert(r@ == JsonModel::Object(target));
            },
            _ => {},
        }
    }
    r
}

} // verus!
