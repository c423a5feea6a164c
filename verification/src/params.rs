//! Request parameters: building a query-string URL from typed fields, and
//! merging raw query-string parameters with a JSON body under a typed
//! parameter catalogue into a fully-typed JSON object.

use vstd::prelude::*;
use crate::coerce::{coerce_model, ToJson};
use crate::helix_types::{lemma_parse_unique, text_parses_to, HelixType};
use crate::json::{clone_json, jm, jm_fields, lemma_jm_fields, JsonModel, JsonValue};
use crate::smap::{assoc, StrMap};
use crate::text::{chars_of, dec_str, join_with, string_of, u64_chars, views_of};

verus! {

broadcast use vstd::string::group_string_axioms, vstd::std_specs::vec::group_vec_axioms;

/// The type a type text denotes, when it denotes one.
pub open spec fn parse_type_spec(s: Seq<char>) -> Option<HelixType> {
    if exists|t: HelixType| text_parses_to(s, t) {
        Some(choose|t: HelixType| text_parses_to(s, t))
    } else {
        None
    }
}

/// The key=value pieces of a parameter list, in order.
pub open spec fn kv_pieces(params: Seq<(Seq<char>, Seq<char>)>) -> Seq<Seq<char>>
    decreases params.len(),
{
    if params.len() == 0 {
        Seq::empty()
    } else {
        kv_pieces(params.drop_last()) + seq![
            params.last().0 + seq!['='] + params.last().1,
        ]
    }
}

/// The URL a parameter set appends to a base: `limit`, then `q`, then the
/// remaining parameters in order, joined with `&` behind a `?`; the base
/// alone when there is nothing to append.
pub open spec fn url_of(
    base: Seq<char>,
    limit: Option<u32>,
    q: Option<Seq<char>>,
    params: Seq<(Seq<char>, Seq<char>)>,
) -> Seq<char> {
    let pieces = (match limit {
        Some(l) => seq!["limit="@ + dec_str(l as int)],
        None => Seq::<Seq<char>>::empty(),
    }) + (match q {
        Some(qs) => seq!["q="@ + qs],
        None => Seq::<Seq<char>>::empty(),
    }) + kv_pieces(params);
    if pieces.len() == 0 {
        base
    } else {
        base + seq!['?'] + join_with(pieces, seq!['&'])
    }
}

/// The raw parameters of one request: an optional pagination limit, an
/// optional search text, and any remaining key-value parameters in order.
#[derive(Debug, Clone)]
pub struct QueryParams {
    pub limit: Option<u32>,
    pub q: Option<String>,
    pub params: StrMap,
}

impl QueryParams {
    /// An empty parameter set.
    pub fn new() -> (r: QueryParams)
        ensures
            r.limit is None,
            r.q is None,
            r.params@ == Seq::<(Seq<char>, Seq<char>)>::empty(),
    {
        QueryParams { limit: None, q: None, params: StrMap::new() }
    }

    /// Append these parameters to a base URL as a query string.
    #[verifier::loop_isolation(false)]
    pub fn to_url(&self, base_url: &str) -> (r: String)
        ensures
            r@ == url_of(
                base_url@,
                self.limit,
                match self.q {
                    Some(qs) => Some(qs@),
                    None => None,
                },
                self.params@,
            ),
    {
        let mut pieces: Vec<Vec<char>> = Vec::new();
        match &self.limit {
            Some(l) => {
                let mut w: Vec<char> = Vec::new();
                crate::text::append_str(&mut w, "limit=");
                let digits = u64_chars(*l as u64);
                crate::text::append_chars(&mut w, digits.as_slice());
                proof {
                    assert(w@ =~= "limit="@ + dec_str(self.limit.unwrap() as int));
                }
                pieces.push(w);
            },
            None => {},
        }
        match &self.q {
            Some(qs) => {
                let mut w: Vec<char> = Vec::new();
                crate::text::append_str(&mut w, "q=");
                crate::text::append_str(&mut w, qs.as_str());
                proof {
                    assert(w@ =~= "q="@ + qs@);
                }
                pieces.push(w);
            },
            None => {},
        }
        let ghost fixed = pieces@;
        proof {
            let lp: Seq<Seq<char>> = match self.limit {
                Some(l) => seq!["limit="@ + dec_str(l as int)],
                None => Seq::<Seq<char>>::empty(),
            };
            let qp: Seq<Seq<char>> = match &self.q {
                Some(qs) => seq!["q="@ + qs@],
                None => Seq::<Seq<char>>::empty(),
            };
            assert(views_of(fixed) =~= lp + qp);
        }
        let entries = self.params.entries();
        let n = entries.len();
        let mut i: usize = 0;
        proof {
            assert(self.params@.take(0) =~= Seq::<(Seq<char>, Seq<char>)>::empty());
            assert(views_of(pieces@) =~= views_of(fixed) + kv_pieces(self.params@.take(0)));
        }
        while i < n
            invariant
                i <= n,
                pieces@.len() >= fixed.len(),
                pieces@.take(fixed.len() as int) == fixed,
                views_of(pieces@) == views_of(fixed) + kv_pieces(self.params@.take(i as int)),
            decreases n - i,
        {
            let ghost old_pieces = pieces@;
            let mut w: Vec<char> = Vec::new();
            crate::text::append_chars(&mut w, chars_of(entries[i].0.as_str()).as_slice());
            w.push('=');
            crate::text::append_chars(&mut w, chars_of(entries[i].1.as_str()).as_slice());
            proof {
                assert(w@ =~= self.params@[i as int].0 + seq!['='] + self.params@[i as int].1);
            }
            pieces.push(w);
            i = i + 1;
            proof {
                assert(self.params@.take(i as int).drop_last() =~= self.params@.take(i - 1));
                assert(self.params@.take(i as int).last() == self.params@[i - 1]);
                assert(pieces@.take(fixed.len() as int) =~= old_pieces.take(fixed.len() as int));
                assert(views_of(pieces@) =~= views_of(old_pieces).push(w@));
                assert(views_of(pieces@) =~= views_of(fixed) + kv_pieces(
                    self.params@.take(i as int),
                ));
            }
        }
        proof {
            assert(self.params@.take(n as int) =~= self.params@);
        }
        if pieces.len() == 0 {
            proof {
                assert(views_of(pieces@).len() == 0);
                assert(base_url@ == url_of(
                    base_url@,
                    self.limit,
                    match self.q {
                        Some(qs) => Some(qs@),
                        None => None,
                    },
                    self.params@,
                ));
            }
            string_of(chars_of(base_url).as_slice())
        } else {
            let mut out: Vec<char> = Vec::new();
            crate::text::append_str(&mut out, base_url);
            out.push('?');
            let amp: Vec<char> = vec!['&'];
            proof {
                assert(amp@ =~= seq!['&']);
            }
            let joined = crate::text::join_slices(pieces.as_slice(), amp.as_slice());
            crate::text::append_chars(&mut out, joined.as_slice());
            proof {
                assert(views_of(pieces@).len() == pieces@.len());
                assert(out@ =~= url_of(
                    base_url@,
                    self.limit,
                    match self.q {
                        Some(qs) => Some(qs@),
                        None => None,
                    },
                    self.params@,
                ));
            }
            string_of(out.as_slice())
        }
    }
}

impl Default for QueryParams {
    /// The default parameter set is empty.
    fn default() -> (r: QueryParams)
        ensures
            r.limit is None,
            r.q is None,
            r.params@ == Seq::<(Seq<char>, Seq<char>)>::empty(),
    {
        QueryParams::new()
    }
}

/// Whether an object already carries a key.
pub open spec fn obj_has_key(fields: Seq<(Seq<char>, JsonModel)>, k: Seq<char>) -> bool {
    exists|i: int| 0 <= i < fields.len() && (#[trigger] fields[i]).0 == k
}

/// What a raw query-string value becomes: typed through the catalogue when
/// its key is catalogued with a parseable type and the value coerces, the
/// raw string otherwise.
pub open spec fn converted_value(
    key: Seq<char>,
    value: Seq<char>,
    catalogue: Seq<(Seq<char>, Seq<char>)>,
) -> JsonModel {
    match assoc(catalogue, key) {
        Some(tt) => match parse_type_spec(tt) {
            Some(ht) => match coerce_model(value, ht) {
                Some(j) => j,
                None => JsonModel::Str(value),
            },
            None => JsonModel::Str(value),
        },
        None => JsonModel::Str(value),
    }
}

/// The fields added from the query string: each key not already in the
/// seeded object, in order, with its converted value.
pub open spec fn added_fields(
    qp: Seq<(Seq<char>, Seq<char>)>,
    seed: Seq<(Seq<char>, JsonModel)>,
    catalogue: Seq<(Seq<char>, Seq<char>)>,
) -> Seq<(Seq<char>, JsonModel)>
    decreases qp.len(),
{
    if qp.len() == 0 {
        Seq::empty()
    } else {
        added_fields(qp.drop_last(), seed, catalogue) + (if obj_has_key(seed, qp.last().0) {
            Seq::<(Seq<char>, JsonModel)>::empty()
        } else {
            seq![(qp.last().0, converted_value(qp.last().0, qp.last().1, catalogue))]
        })
    }
}

/// The object a body seeds: its own fields when it is an object, nothing
/// when it is null or absent, and a single `body` field otherwise.
pub open spec fn seed_of_body(body: Option<JsonModel>) -> Seq<(Seq<char>, JsonModel)> {
    match body {
        Some(JsonModel::Object(fields)) => fields,
        Some(JsonModel::Null) => Seq::empty(),
        Some(other) => seq![("body"@, other)],
        None => Seq::empty(),
    }
}

/// The merged parameter object: body fields verbatim, then each
/// query-string parameter whose key the body does not carry, converted
/// through the catalogue.
pub open spec fn merge_spec(
    qp: Seq<(Seq<char>, Seq<char>)>,
    body: Option<JsonModel>,
    catalogue: Seq<(Seq<char>, Seq<char>)>,
) -> JsonModel {
    let seed = seed_of_body(body);
    JsonModel::Object(seed + added_fields(qp, seed, catalogue))
}

/// Whether the fields of an object carry `key`, as executed.
#[verifier::loop_isolation(false)]
fn fields_contain_key(fields: &[(String, JsonValue)], key: &str) -> (r: bool)
    ensures
        r == obj_has_key(jm_fields(fields@), key@),
{
    proof {
        lemma_jm_fields(fields@);
    }
    let n = fields.len();
    let mut i: usize = 0;
    while i < n
        invariant
            i <= n,
            n == fields@.len(),
            forall|j: int| 0 <= j < i ==> (#[trigger] fields@[j]).0@ != key@,
        decreases n - i,
    {
        if crate::text::str_eq(fields[i].0.as_str(), key) {
            proof {
                assert(jm_fields(fields@)[i as int].0 == key@);
            }
            return true;
        }
        i = i + 1;
    }
    proof {
        assert forall|j: int| 0 <= j < jm_fields(fields@).len() implies (#[trigger] jm_fields(
            fields@,
        )[j]).0 != key@ by {
            assert(jm_fields(fields@)[j] == (fields@[j].0@, jm(fields@[j].1)));
        }
    }
    false
}

/// Convert one raw value through the catalogue.
fn convert_through(key: &str, value: &str, catalogue: &StrMap) -> (r: JsonValue)
    ensures
        r@ == converted_value(key@, value@, catalogue@),
{
    match catalogue.get(key) {
        Some(tt) => {
            let tv = chars_of(tt.as_str());
            match HelixType::parse_chars(tv.as_slice()) {
                Some(ht) => {
                    proof {
                        let chosen = choose|t: HelixType| text_parses_to(tt@, t);
                        lemma_parse_unique(tt@, ht, chosen);
                    }
                    match value.to_json(&ht) {
                        Ok(j) => j,
                        Err(_) => JsonValue::Str(string_of(chars_of(value).as_slice())),
                    }
                },
                None => JsonValue::Str(string_of(chars_of(value).as_slice())),
            }
        },
        None => JsonValue::Str(string_of(chars_of(value).as_slice())),
    }
}

impl QueryParams {
    /// Merge raw query-string parameters with an optional JSON body under a
    /// typed parameter catalogue. Body fields pass through untouched and win
    /// every key collision; each remaining query-string value is typed
    /// through the catalogue, or carried as a plain string when the lookup
    /// or the conversion fails.
    #[verifier::loop_isolation(false)]
    pub fn merge_parameters(
        query_params: &StrMap,
        body: Option<&JsonValue>,
        param_types: &StrMap,
    ) -> (r: JsonValue)
        ensures
            r@ == merge_spec(
                query_params@,
                match body {
                    Some(b) => Some(b@),
                    None => None,
                },
                param_types@,
            ),
    {
        let ghost bodym: Option<JsonModel> = match body {
            Some(b) => Some(b@),
            None => None,
        };
        let mut out: Vec<(String, JsonValue)> = Vec::new();
        match body {
            Some(b) => {
                match b {
                    JsonValue::Object(fields) => {
                        let n = fields.len();
                        let mut i: usize = 0;
                        proof {
                            lemma_jm_fields(fields@);
                            lemma_jm_fields(out@);
                            assert(jm_fields(out@) =~= jm_fields(fields@).take(0));
                        }
                        while i < n
                            invariant
                                i <= n,
                                n == fields@.len(),
                                jm_fields(out@) == jm_fields(fields@).take(i as int),
                            decreases n - i,
                        {
                            let ghost old_out = out@;
                            let k = crate::json::clone_string(&fields[i].0);
                            let cv = clone_json(&fields[i].1);
                            out.push((k, cv));
                            i = i + 1;
                            proof {
                                lemma_jm_fields(out@);
                                lemma_jm_fields(old_out);
                                lemma_jm_fields(fields@);
                                assert(jm_fields(fields@).take(i as int).drop_last()
                                    =~= jm_fields(fields@).take(i - 1));
                                assert(jm_fields(out@) =~= jm_fields(old_out).push(
                                    jm_fields(fields@)[i - 1],
                                ));
                                assert(jm_fields(out@) =~= jm_fields(fields@).take(i as int));
                            }
                        }
                        proof {
                            assert(jm_fields(fields@).take(n as int) =~= jm_fields(fields@));
                        }
                    },
                    JsonValue::Null => {
                        proof {
                            assert(jm_fields(out@) =~= seed_of_body(bodym));
                        }
                    },
                    other => {
                        let cv = clone_json(other);
                        out.push((string_of(chars_of("body").as_slice()), cv));
                        proof {
                            lemma_jm_fields(out@);
                            assert(jm_fields(out@) =~= seed_of_body(bodym));
                        }
                    },
                }
            },
            None => {
                proof {
                    assert(jm_fields(out@) =~= seed_of_body(bodym));
                }
            },
        }
        let ghost seed = seed_of_body(bodym);
        proof {
            lemma_jm_fields(out@);
            assert(jm_fields(out@) == seed);
            assert(added_fields(query_params@.take(0), seed, param_types@) =~= Seq::<
                (Seq<char>, JsonModel),
            >::empty());
        }
        let seed_n = out.len();
        let ghost seed_len = seed_n as int;
        proof {
            assert(out@.take(seed_len) =~= out@);
        }
        let entries = query_params.entries();
        let n = entries.len();
        let mut i: usize = 0;
        while i < n
            invariant
                i <= n,
                out@.len() >= seed_len >= 0,
                seed_len == seed_n as int,
                jm_fields(out@.take(seed_len)) == seed,
                jm_fields(out@) == seed + added_fields(
                    query_params@.take(i as int),
                    seed,
                    param_types@,
                ),
            decreases n - i,
        {
            let ghost old_out = out@;
            let seed_part = vstd::slice::slice_subrange(out.as_slice(), 0, seed_n);
            let contained = fields_contain_key(seed_part, entries[i].0.as_str());
            let ghost qkey = query_params@[i as int].0;
            proof {
                assert(seed_part@ =~= old_out.take(seed_len));
                assert(entries@[i as int].0@ == qkey);
                assert(contained == obj_has_key(seed, qkey));
            }
            if !contained {
                let cv = convert_through(entries[i].0.as_str(), entries[i].1.as_str(), param_types);
                let k = crate::json::clone_string(&entries[i].0);
                out.push((k, cv));
                proof {
                    lemma_jm_fields(out@);
                    lemma_jm_fields(old_out);
                    assert(jm_fields(out@) =~= jm_fields(old_out).push((qkey, cv@)));
                    assert(out@.take(seed_len) =~= old_out.take(seed_len));
                }
            }
            i = i + 1;
            proof {
                assert(query_params@.take(i as int).drop_last() =~= query_params@.take(i - 1));
                assert(query_params@.take(i as int).last() == query_params@[i - 1]);
                assert(jm_fields(out@) =~= seed + added_fields(
                    query_params@.take(i as int),
                    seed,
                    param_types@,
                ));
            }
        }
        proof {
            assert(query_params@.take(n as int) =~= query_params@);
        }
        JsonValue::Object(out)
    }
}

} // verus!
