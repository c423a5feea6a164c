//! The query definition parser: `QUERY name (params) => Return` lines parsed
//! into named, typed parameter lists, with an HTTP verb and REST path derived
//! from the query's name by convention.

use vstd::prelude::*;
use vstd::string::StringExecFns;
use crate::text::{
    append_chars, append_str, chars_of, ends_with, find_sub, join_with, lemma_find_sub_bounds,
    replace_slice, replace_sub, slice_eq_str, slice_ends_with, slice_starts_with, split_sub,
    split_sub_slice, starts_with, str_eq, string_of, trim_slice, trim_spec, views_of,
};

verus! {

broadcast use vstd::string::group_string_axioms, vstd::std_specs::vec::group_vec_axioms;

/// What std's `str::to_lowercase` returns; a function of the text alone.
pub uninterp spec fn lower_of(s: Seq<char>) -> Seq<char>;

/// Relies on std's `str::to_lowercase`: the Unicode-lowercased text.
#[verifier::external_body]
fn to_lowercase_str(s: &str) -> (r: String)
    ensures
        r@ == lower_of(s@),
{
    s.to_lowercase()
}

/// What std's `char::is_uppercase` returns; a function of the character.
pub uninterp spec fn char_upper(c: char) -> bool;

/// Relies on std's `char::is_uppercase`: the Unicode uppercase property.
#[verifier::external_body]
fn char_is_upper(c: char) -> (r: bool)
    ensures
        r == char_upper(c),
{
    c.is_uppercase()
}

/// The first character of std's `char::to_lowercase` mapping; a function of
/// the character.
pub uninterp spec fn char_lower1(c: char) -> char;

/// Relies on std's `char::to_lowercase`: its mapping is never empty, so its
/// first character is taken.
#[verifier::external_body]
fn char_to_lower_first(c: char) -> (r: char)
    ensures
        r == char_lower1(c),
{
    c.to_lowercase().next().unwrap_or(c)
}

/// The Rust type name a query parameter type maps to; unknown names pass
/// through unchanged.
pub open spec fn rust_name_of(t: Seq<char>) -> Seq<char> {
    if t == "String"@ {
        "String"@
    } else if t == "I32"@ {
        "i32"@
    } else if t == "I64"@ {
        "i64"@
    } else if t == "F64"@ {
        "f64"@
    } else if t == "ID"@ {
        "String"@
    } else if t == "[F64]"@ {
        "Vec<f64>"@
    } else {
        t
    }
}

/// Map a query parameter type name into the Rust vocabulary.
pub fn map_helix_type_to_rust(helix_type: &str) -> (r: String)
    ensures
        r@ == rust_name_of(helix_type@),
{
    if str_eq(helix_type, "String") {
        String::from_str("String")
    } else if str_eq(helix_type, "I32") {
        String::from_str("i32")
    } else if str_eq(helix_type, "I64") {
        String::from_str("i64")
    } else if str_eq(helix_type, "F64") {
        String::from_str("f64")
    } else if str_eq(helix_type, "ID") {
        String::from_str("String")
    } else if str_eq(helix_type, "[F64]") {
        String::from_str("Vec<f64>")
    } else {
        string_of(chars_of(helix_type).as_slice())
    }
}

/// The name's camelCase converted to kebab-case: an uppercase letter after
/// the first position introduces a dash, every character is lowercased.
pub open spec fn kebab(s: Seq<char>) -> Seq<char>
    decreases s.len(),
{
    if s.len() == 0 {
        Seq::empty()
    } else {
        kebab(s.drop_last()) + (if char_upper(s.last()) && s.len() > 1 {
            seq!['-']
        } else {
            Seq::empty()
        }) + seq![char_lower1(s.last())]
    }
}

/// Convert a camelCase name to kebab-case.
#[verifier::loop_isolation(false)]
pub fn convert_camel_to_kebab(camel_case: &str) -> (r: String)
    ensures
        r@ == kebab(camel_case@),
{
    let v = chars_of(camel_case);
    let mut out: Vec<char> = Vec::new();
    let n = v.len();
    let mut i: usize = 0;
    proof {
        assert(v@.take(0) =~= Seq::<char>::empty());
        assert(out@ =~= kebab(v@.take(0)));
    }
    while i < n
        invariant
            i <= n,
            out@ == kebab(v@.take(i as int)),
        decreases n - i,
    {
        if char_is_upper(v[i]) && i > 0 {
            out.push('-');
        }
        out.push(char_to_lower_first(v[i]));
        i = i + 1;
        proof {
            assert(v@.take(i as int).drop_last() =~= v@.take(i - 1));
            assert(v@.take(i as int).last() == v@[i - 1]);
            if char_upper(v@[i - 1]) && i > 1 {
                assert(out@ =~= kebab(v@.take(i - 1)) + seq!['-'] + seq![char_lower1(v@[i - 1])]);
            } else {
                assert(out@ =~= kebab(v@.take(i - 1)) + Seq::<char>::empty() + seq![
                    char_lower1(v@[i - 1]),
                ]);
            }
        }
    }
    proof {
        assert(v@.take(n as int) =~= v@);
    }
    string_of(out.as_slice())
}

/// A named, typed query parameter.
#[derive(Debug, Clone)]
pub struct QueryParameter {
    pub name: String,
    pub param_type: String,
}

impl View for QueryParameter {
    type V = (Seq<char>, Seq<char>);

    open spec fn view(&self) -> (Seq<char>, Seq<char>) {
        (self.name@, self.param_type@)
    }
}

impl QueryParameter {
    /// A parameter with its type name mapped into the Rust vocabulary.
    pub fn new(name: String, param_type: String) -> (r: QueryParameter)
        ensures
            r@ == (name@, rust_name_of(param_type@)),
    {
        QueryParameter { name, param_type: map_helix_type_to_rust(param_type.as_str()) }
    }

    /// Parse a comma-space-separated list of `name: Type` pairs; pieces
    /// without a `: ` are skipped, types are mapped into the Rust
    /// vocabulary.
    #[verifier::loop_isolation(false)]
    pub fn parse_multiple(params_str: &str) -> (r: Vec<QueryParameter>)
        ensures
            params_model(r@) == params_of(params_str@),
    {
        let v = chars_of(params_str);
        let trimmed = trim_slice(v.as_slice());
        let mut r: Vec<QueryParameter> = Vec::new();
        if trimmed.len() == 0 {
            proof {
                assert(params_model(r@) =~= params_of(params_str@));
            }
            return r;
        }
        let sep = chars_of(", ");
        proof {
            reveal_strlit(", ");
            assert(sep@ == ", "@ && sep@.len() == 2);
        }
        let pieces = split_sub_slice(v.as_slice(), sep.as_slice());
        let ghost pm = split_sub(params_str@, ", "@);
        proof {
            assert(views_of(pieces@) == pm);
            assert(param_pieces(pm.take(0)) =~= Seq::<(Seq<char>, Seq<char>)>::empty());
            assert(params_model(r@) =~= param_pieces(pm.take(0)));
        }
        let n = pieces.len();
        let mut i: usize = 0;
        while i < n
            invariant
                i <= n,
                n == pieces@.len(),
                pm == views_of(pieces@),
                params_model(r@) == param_pieces(pm.take(i as int)),
            decreases n - i,
        {
            let ghost old_r = r@;
            let piece = trim_slice(pieces[i].as_slice());
            proof {
                assert(pieces@[i as int]@ == pm[i as int]);
            }
            let colon = chars_of(": ");
            proof {
                reveal_strlit(": ");
                assert(colon@ == ": "@ && colon@.len() == 2);
            }
            match crate::text::find_sub_slice(piece, colon.as_slice()) {
                Some(p) => {
                    proof {
                        lemma_find_sub_bounds(piece@, ": "@);
                    }
                    let plen = piece.len();
                    let name = trim_slice(vstd::slice::slice_subrange(piece, 0, p));
                    let ptype = trim_slice(vstd::slice::slice_subrange(piece, p + 2, plen));
                    let qp = QueryParameter::new(
                        string_of(name),
                        string_of(ptype),
                    );
                    r.push(qp);
                },
                None => {},
            }
            i = i + 1;
            proof {
                assert(pm.take(i as int).drop_last() =~= pm.take(i - 1));
                assert(pm.take(i as int).last() == pm[i - 1]);
                assert(params_model(r@) =~= param_pieces(pm.take(i as int)));
            }
        }
        proof {
            assert(pm.take(n as int) =~= pm);
        }
        r
    }
}

/// The views of a parameter list.
pub open spec fn params_model(q: Seq<QueryParameter>) -> Seq<(Seq<char>, Seq<char>)> {
    Seq::new(q.len(), |i: int| q[i]@)
}

/// One `name: Type` piece: split at the first `: `, both sides trimmed, the
/// type mapped; pieces without the separator yield nothing.
pub open spec fn param_of_piece(piece: Seq<char>) -> Option<(Seq<char>, Seq<char>)> {
    let p = trim_spec(piece);
    match find_sub(p, ": "@) {
        None => None,
        Some(i) => Some(
            (
                trim_spec(p.subrange(0, i)),
                rust_name_of(trim_spec(p.subrange(i + 2, p.len() as int))),
            ),
        ),
    }
}

/// The parameters of a piece list, in order.
pub open spec fn param_pieces(pieces: Seq<Seq<char>>) -> Seq<(Seq<char>, Seq<char>)>
    decreases pieces.len(),
{
    if pieces.len() == 0 {
        Seq::empty()
    } else {
        param_pieces(pieces.drop_last()) + (match param_of_piece(pieces.last()) {
            Some(p) => seq![p],
            None => Seq::<(Seq<char>, Seq<char>)>::empty(),
        })
    }
}

/// The parameters of a parameter-list text: empty when blank, else the
/// parsed `, `-separated pieces.
pub open spec fn params_of(s: Seq<char>) -> Seq<(Seq<char>, Seq<char>)> {
    if trim_spec(s).len() == 0 {
        Seq::empty()
    } else {
        param_pieces(split_sub(s, ", "@))
    }
}

/// Whether a parameter name selects a path segment: exactly `id`, or ending
/// in `_id`.
pub open spec fn is_id_name(n: Seq<char>) -> bool {
    n == "id"@ || ends_with(n, "_id"@)
}

/// The `{name}` path segments of the id-like parameters, in declaration
/// order.
pub open spec fn id_segs(params: Seq<(Seq<char>, Seq<char>)>) -> Seq<Seq<char>>
    decreases params.len(),
{
    if params.len() == 0 {
        Seq::empty()
    } else {
        id_segs(params.drop_last()) + (if is_id_name(params.last().0) {
            seq![seq!['{'] + params.last().0 + seq!['}']]
        } else {
            Seq::<Seq<char>>::empty()
        })
    }
}

/// The REST path of a query: `/api/query/` plus the kebab-cased name, with
/// the id-like parameters appended as `{name}` segments.
pub open spec fn path_of(qname: Seq<char>, params: Seq<(Seq<char>, Seq<char>)>) -> Seq<char> {
    let base = "/api/query/"@ + kebab(qname);
    let ids = id_segs(params);
    if ids.len() == 0 {
        base
    } else {
        base + seq!['/'] + join_with(ids, seq!['/'])
    }
}

/// The HTTP verb chosen from a lowercased query name by prefix.
pub open spec fn method_of_lower(l: Seq<char>) -> Seq<char> {
    if starts_with(l, "create"@) || starts_with(l, "add"@) {
        "POST"@
    } else if starts_with(l, "update"@) {
        "PUT"@
    } else if starts_with(l, "delete"@) || starts_with(l, "remove"@) {
        "DELETE"@
    } else {
        "GET"@
    }
}

/// Derive the REST path for a query name and its parameters.
#[verifier::loop_isolation(false)]
pub fn generate_endpoint_path(query_name: &str, parameters: &[QueryParameter]) -> (r: String)
    ensures
        r@ == path_of(query_name@, params_model(parameters@)),
{
    let base_path = convert_camel_to_kebab(query_name);
    let ghost pm = params_model(parameters@);
    let mut segs: Vec<Vec<char>> = Vec::new();
    let n = parameters.len();
    let mut i: usize = 0;
    let idlit = chars_of("id");
    let uid = chars_of("_id");
    proof {
        assert(idlit@ == "id"@ && uid@ == "_id"@);
        assert(pm.take(0) =~= Seq::<(Seq<char>, Seq<char>)>::empty());
        assert(crate::text::views_of(segs@) =~= id_segs(pm.take(0)));
    }
    while i < n
        invariant
            i <= n,
            crate::text::views_of(segs@) == id_segs(pm.take(i as int)),
        decreases n - i,
    {
        let ghost old_segs = segs@;
        let name_chars = chars_of(parameters[i].name.as_str());
        if slice_eq_str(name_chars.as_slice(), "id") || slice_ends_with(
            name_chars.as_slice(),
            uid.as_slice(),
        ) {
            let mut seg: Vec<char> = Vec::new();
            seg.push('{');
            append_chars(&mut seg, name_chars.as_slice());
            seg.push('}');
            proof {
                assert(seg@ =~= seq!['{'] + pm[i as int].0 + seq!['}']);
            }
            segs.push(seg);
        }
        i = i + 1;
        proof {
            assert(pm.take(i as int).drop_last() =~= pm.take(i - 1));
            assert(pm.take(i as int).last() == pm[i - 1]);
            assert(crate::text::views_of(segs@) =~= id_segs(pm.take(i as int)));
        }
    }
    proof {
        assert(pm.take(n as int) =~= pm);
    }
    let mut out: Vec<char> = Vec::new();
    append_str(&mut out, "/api/query/");
    append_str(&mut out, base_path.as_str());
    if segs.len() == 0 {
        proof {
            assert(out@ =~= path_of(query_name@, pm));
        }
        string_of(out.as_slice())
    } else {
        out.push('/');
        let slash: Vec<char> = vec!['/'];
        proof {
            assert(slash@ =~= seq!['/']);
        }
        let joined = crate::text::join_slices(segs.as_slice(), slash.as_slice());
        append_chars(&mut out, joined.as_slice());
        proof {
            assert(out@ =~= path_of(query_name@, pm));
        }
        string_of(out.as_slice())
    }
}

/// Derive the HTTP verb and REST path for a query.
pub fn determine_endpoint_info(query_name: &str, parameters: &[QueryParameter]) -> (r: (
    String,
    String,
))
    ensures
        r.0@ == method_of_lower(lower_of(query_name@)),
        r.1@ == path_of(query_name@, params_model(parameters@)),
{
    let lower = to_lowercase_str(query_name);
    let lv = chars_of(lower.as_str());
    let method = if slice_starts_with(lv.as_slice(), chars_of("create").as_slice())
        || slice_starts_with(lv.as_slice(), chars_of("add").as_slice()) {
        String::from_str("POST")
    } else if slice_starts_with(lv.as_slice(), chars_of("update").as_slice()) {
        String::from_str("PUT")
    } else if slice_starts_with(lv.as_slice(), chars_of("delete").as_slice())
        || slice_starts_with(lv.as_slice(), chars_of("remove").as_slice()) {
        String::from_str("DELETE")
    } else {
        String::from_str("GET")
    };
    let path = generate_endpoint_path(query_name, parameters);
    (method, path)
}

/// The model of a parsed query definition.
pub struct QueryModel {
    pub name: Seq<char>,
    pub parameters: Seq<(Seq<char>, Seq<char>)>,
    pub http_method: Seq<char>,
    pub endpoint_path: Seq<char>,
}

/// A parsed query definition with its derived REST exposure.
#[derive(Debug, Clone)]
pub struct QueryDefinition {
    pub name: String,
    pub parameters: Vec<QueryParameter>,
    pub http_method: String,
    pub endpoint_path: String,
}

impl View for QueryDefinition {
    type V = QueryModel;

    open spec fn view(&self) -> QueryModel {
        QueryModel {
            name: self.name@,
            parameters: params_model(self.parameters@),
            http_method: self.http_method@,
            endpoint_path: self.endpoint_path@,
        }
    }
}

/// What a query line denotes: the name before the first ` (`, every
/// `QUERY ` occurrence removed and trimmed; the parameters between it and
/// the first `) =>`; the verb and path derived from both. A line without a
/// ` (` denotes nothing.
pub open spec fn query_of_line(line: Seq<char>) -> Option<QueryModel> {
    let parts = split_sub(line, " ("@);
    if parts.len() < 2 {
        None
    } else {
        let name = trim_spec(replace_sub(parts[0], "QUERY "@, Seq::empty()));
        let params_section = split_sub(parts[1], ") =>"@)[0];
        let params = params_of(params_section);
        Some(
            QueryModel {
                name: name,
                parameters: params,
                http_method: method_of_lower(lower_of(name)),
                endpoint_path: path_of(name, params),
            },
        )
    }
}

impl QueryDefinition {
    /// Parse a single query definition line.
    pub fn from_line(line: &str) -> (r: Option<QueryDefinition>)
        ensures
            match r {
                Some(q) => query_of_line(line@) == Some(q@),
                None => query_of_line(line@) is None,
            },
    {
        let v = chars_of(line);
        let popen = chars_of(" (");
        proof {
            reveal_strlit(" (");
            assert(popen@ == " ("@ && popen@.len() == 2);
        }
        let parts = split_sub_slice(v.as_slice(), popen.as_slice());
        let ghost partsm = split_sub(line@, " ("@);
        proof {
            assert(views_of(parts@) == partsm);
        }
        if parts.len() < 2 {
            return None;
        }
        let qlit = chars_of("QUERY ");
        proof {
            reveal_strlit("QUERY ");
            assert(qlit@ == "QUERY "@ && qlit@.len() == 6);
        }
        let empty: Vec<char> = Vec::new();
        let name_raw = replace_slice(parts[0].as_slice(), qlit.as_slice(), empty.as_slice());
        proof {
            assert(parts@[0]@ == partsm[0]);
            assert(empty@ =~= Seq::<char>::empty());
        }
        let name_t = trim_slice(name_raw.as_slice());
        let name = string_of(name_t);
        let arrow = chars_of(") =>");
        proof {
            reveal_strlit(") =>");
            assert(arrow@ == ") =>"@ && arrow@.len() == 4);
        }
        let sections = split_sub_slice(parts[1].as_slice(), arrow.as_slice());
        proof {
            assert(parts@[1]@ == partsm[1]);
            assert(views_of(sections@) == split_sub(partsm[1], ") =>"@));
            assert(split_sub(partsm[1], ") =>"@).len() > 0);
            assert(sections@[0]@ == split_sub(partsm[1], ") =>"@)[0]);
        }
        let section = string_of(sections[0].as_slice());
        let parameters = QueryParameter::parse_multiple(section.as_str());
        let (http_method, endpoint_path) = determine_endpoint_info(
            name.as_str(),
            parameters.as_slice(),
        );
        Some(QueryDefinition { name, parameters, http_method, endpoint_path })
    }

    /// Parse every `QUERY `-prefixed line of a query definition text.
    #[verifier::loop_isolation(false)]
    pub fn from_content(content: &str) -> (r: Vec<QueryDefinition>)
        ensures
            queries_model(r@) == queries_of(content@),
    {
        let lines = crate::schema::lines_of(content);
        let ghost lm = crate::schema::strs_model(lines@);
        let mut r: Vec<QueryDefinition> = Vec::new();
        let n = lines.len();
        let mut i: usize = 0;
        let qlit = chars_of("QUERY ");
        proof {
            reveal_strlit("QUERY ");
            assert(qlit@ == "QUERY "@);
            assert(lm.take(0) =~= Seq::<Seq<char>>::empty());
            assert(queries_model(r@) =~= queries_lines(lm.take(0)));
        }
        while i < n
            invariant
                i <= n,
                queries_model(r@) == queries_lines(lm.take(i as int)),
            decreases n - i,
        {
            let lv = chars_of(lines[i].as_str());
            let line = trim_slice(lv.as_slice());
            proof {
                assert(lm[i as int] == lines@[i as int]@);
            }
            if slice_starts_with(line, qlit.as_slice()) {
                let lt = string_of(line);
                match QueryDefinition::from_line(lt.as_str()) {
                    Some(q) => {
                        r.push(q);
                    },
                    None => {},
                }
            }
            i = i + 1;
            proof {
                assert(lm.take(i as int).drop_last() =~= lm.take(i - 1));
                assert(lm.take(i as int).last() == lm[i - 1]);
                assert(queries_model(r@) =~= queries_lines(lm.take(i as int)));
            }
        }
        proof {
            assert(lm.take(n as int) =~= lm);
        }
        r
    }
}

/// The views of a query definition list.
pub open spec fn queries_model(q: Seq<QueryDefinition>) -> Seq<QueryModel> {
    Seq::new(q.len(), |i: int| q[i]@)
}

/// The queries of a line list: each trimmed `QUERY `-prefixed line that
/// denotes a query, in order.
pub open spec fn queries_lines(lines: Seq<Seq<char>>) -> Seq<QueryModel>
    decreases lines.len(),
{
    if lines.len() == 0 {
        Seq::empty()
    } else {
        queries_lines(lines.drop_last()) + ({
            let l = trim_spec(lines.last());
            if starts_with(l, "QUERY "@) {
                match query_of_line(l) {
                    Some(q) => seq![q],
                    None => Seq::<QueryModel>::empty(),
                }
            } else {
                Seq::<QueryModel>::empty()
            }
        })
    }
}

/// The queries of a query definition text.
pub open spec fn queries_of(s: Seq<char>) -> Seq<QueryModel> {
    queries_lines(crate::schema::lines_spec(s))
}

/// The model of an endpoint description.
pub struct EndpointModel {
    pub path: Seq<char>,
    pub method: Seq<char>,
    pub query_name: Seq<char>,
    pub parameters: Seq<(Seq<char>, Seq<char>)>,
}

/// A query's REST exposure, shaped for outside consumption.
#[derive(Debug, Clone)]
pub struct ApiEndpointInfo {
    pub path: String,
    pub method: String,
    pub query_name: String,
    pub parameters: Vec<QueryParameter>,
}

impl View for ApiEndpointInfo {
    type V = EndpointModel;

    open spec fn view(&self) -> EndpointModel {
        EndpointModel {
            path: self.path@,
            method: self.method@,
            query_name: self.query_name@,
            parameters: params_model(self.parameters@),
        }
    }
}

impl ApiEndpointInfo {
    /// Gather the fields of an endpoint description.
    pub fn new(path: String, method: String, query_name: String, parameters: Vec<QueryParameter>)
        -> (r: ApiEndpointInfo)
        ensures
            r@ == (EndpointModel {
                path: path@,
                method: method@,
                query_name: query_name@,
                parameters: params_model(parameters@),
            }),
    {
        ApiEndpointInfo { path, method, query_name, parameters }
    }

    /// Project a query definition onto its endpoint description.
    pub fn from_query_definition(query: QueryDefinition) -> (r: ApiEndpointInfo)
        ensures
            r@ == (EndpointModel {
                path: query@.endpoint_path,
                method: query@.http_method,
                query_name: query@.name,
                parameters: query@.parameters,
            }),
    {
        ApiEndpointInfo {
            path: query.endpoint_path,
            method: query.http_method,
            query_name: query.name,
            parameters: query.parameters,
        }
    }
}

/// The endpoint descriptions of every query in a query definition text.
#[verifier::loop_isolation(false)]
pub fn get_all_api_endpoints(content: &str) -> (r: Vec<ApiEndpointInfo>)
    ensures
        endpoints_model(r@) == endpoints_of(content@),
{
    let defs = QueryDefinition::from_content(content);
    let ghost qm = queries_model(defs@);
    let mut r: Vec<ApiEndpointInfo> = Vec::new();
    let mut defs = defs;
    let dn = defs.len();
    let mut taken: usize = 0;
    proof {
        assert(qm.len() == dn as int);
        assert(qm.take(0) =~= Seq::<QueryModel>::empty());
        assert(endpoints_model(r@) =~= qm.take(0).map_values(|q: QueryModel| endpoint_of_query(q)));
    }
    while defs.len() > 0
        invariant
            taken + defs@.len() == qm.len(),
            qm.len() <= usize::MAX,
            queries_model(defs@) =~= qm.skip(taken as int),
            endpoints_model(r@) =~= qm.take(taken as int).map_values(
                |q: QueryModel| endpoint_of_query(q),
            ),
        decreases defs@.len(),
    {
        let ghost prev = defs@;
        let ghost old_r = r@;
        let d = defs.remove(0);
        proof {
            assert forall|j: int| 0 <= j < defs@.len() implies #[trigger] queries_model(defs@)[j]
                == qm.skip(taken + 1)[j] by {
                assert(queries_model(defs@)[j] == defs@[j]@);
                assert(defs@[j] == prev[j + 1]);
                assert(queries_model(prev)[j + 1] == prev[j + 1]@);
            }
            assert(queries_model(defs@) =~= qm.skip(taken + 1));
            assert(queries_model(prev)[0] == prev[0]@);
            assert(d@ == qm[taken as int]);
        }
        let e = ApiEndpointInfo::from_query_definition(d);
        r.push(e);
        taken = taken + 1;
        proof {
            assert forall|j: int| 0 <= j < r@.len() implies #[trigger] endpoints_model(r@)[j]
                == qm.take(taken as int).map_values(|q: QueryModel| endpoint_of_query(q))[j] by {
                assert(endpoints_model(r@)[j] == r@[j]@);
                if j < r@.len() - 1 {
                    assert(r@[j] == old_r[j]);
                    assert(endpoints_model(old_r)[j] == old_r[j]@);
                }
            }
            assert(endpoints_model(r@) =~= qm.take(taken as int).map_values(
                |q: QueryModel| endpoint_of_query(q),
            ));
        }
    }
    proof {
        assert(qm.take(taken as int) =~= qm);
    }
    r
}

/// The views of an endpoint list.
pub open spec fn endpoints_model(q: Seq<ApiEndpointInfo>) -> Seq<EndpointModel> {
    Seq::new(q.len(), |i: int| q[i]@)
}

/// A query's endpoint description.
pub open spec fn endpoint_of_query(q: QueryModel) -> EndpointModel {
    EndpointModel {
        path: q.endpoint_path,
        method: q.http_method,
        query_name: q.name,
        parameters: q.parameters,
    }
}

/// The endpoint descriptions a query text denotes.
pub open spec fn endpoints_of(s: Seq<char>) -> Seq<EndpointModel> {
    queries_of(s).map_values(|q: QueryModel| endpoint_of_query(q))
}

} // verus!
