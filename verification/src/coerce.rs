//! Type-directed conversion of wire strings into JSON values: exact for the
//! integer scalars, through trusted float parsing for `F64`, `U128` and
//! `[F64]`, with a strict form (typed errors) and a lenient form (string or
//! zero fallbacks) matching the two conversion entry points.

use vstd::prelude::*;
use crate::helix_types::{HelixType, HelixTypeError};
use crate::json::{jm_seq, lemma_jm_seq, JsonModel, JsonValue};
use crate::text::{
    chars_of, int_kind_msg, int_kind_msg_exec, int_parse_kind, parse_i32_res, parse_i64_res,
    parse_signed, parse_u128_res, parse_u32_res, parse_u64_res, parse_unsigned, split_sub,
    split_sub_slice, str_eq, string_of, trim_slice, trim_spec, uint_parse_kind, views_of,
};

verus! {

broadcast use vstd::string::group_string_axioms, vstd::std_specs::vec::group_vec_axioms;

/// What float parsing followed by JSON number formatting yields for a text:
/// nothing when the text is not a float; `Some(None)` when it parses but is
/// not finite; otherwise the canonical JSON number text.
pub uninterp spec fn float_parse(s: Seq<char>) -> Option<Option<Seq<char>>>;

/// Relies on std's `str::parse` for 64-bit floats and on
/// `serde_json::Number::from_f64` (finite floats only) with its `Display`
/// formatting. The outcome is a function of the text alone.
#[verifier::external_body]
fn parse_float_text(s: &str) -> (r: Option<Option<String>>)
    ensures
        r.deep_view() == float_parse(s@),
{
    match s.parse().ok().map(serde_json::Number::from_f64) {
        None => None,
        Some(None) => Some(None),
        Some(Some(n)) => Some(Some(n.to_string())),
    }
}

/// What parsing a text as a JSON array of floats yields: nothing when it is
/// not such an array, otherwise one entry per element, formatted as by
/// `float_parse`, `None` for the non-finite ones.
pub uninterp spec fn json_float_array(s: Seq<char>) -> Option<Seq<Option<Seq<char>>>>;

/// Relies on `serde_json::from_str` deserializing a vector of 64-bit floats,
/// and on `serde_json::Number::from_f64` with its `Display` formatting for
/// each element. The outcome is a function of the text alone.
#[verifier::external_body]
fn parse_json_float_array(s: &str) -> (r: Option<Vec<Option<String>>>)
    ensures
        r.deep_view() == json_float_array(s@),
{
    let parsed: Vec<_> = match serde_json::from_str(s) {
        Ok(v) => v,
        Err(_) => return None,
    };
    Some(
        parsed.into_iter().map(
            |x| serde_json::Number::from_f64(x).map(|n| n.to_string()),
        ).collect(),
    )
}

/// The canonical JSON number text of the float nearest to a 128-bit value;
/// absent only for a non-finite float, which no such value yields.
pub uninterp spec fn u128_float(n: u128) -> Option<Seq<char>>;

/// Relies on the int-to-float cast (nearest float) and on
/// `serde_json::Number::from_f64` with its `Display` formatting.
#[verifier::external_body]
fn u128_float_text(n: u128) -> (r: Option<String>)
    ensures
        r.deep_view() == u128_float(n),
{
    serde_json::Number::from_f64(n as _).map(|x| x.to_string())
}

/// A `Conversion` error carrying the offending value, the expected type, and
/// a cause text.
pub open spec fn is_conversion_err(
    e: HelixTypeError,
    v: Seq<char>,
    t: HelixType,
    cause: Seq<char>,
) -> bool {
    &&& e matches HelixTypeError::Conversion { value, expected_type, error }
    &&& value@ == v
    &&& expected_type == t
    &&& error@ == cause
}

/// The finite elements of a float list, as JSON numbers, in order; the
/// non-finite ones are dropped.
pub open spec fn kept_floats(elems: Seq<Option<Seq<char>>>) -> Seq<JsonModel> {
    elems.filter(|x: Option<Seq<char>>| x is Some).map_values(
        |x: Option<Seq<char>>| JsonModel::Num(x.unwrap()),
    )
}

proof fn lemma_kept_push(p: Seq<Option<Seq<char>>>, x: Option<Seq<char>>)
    ensures
        kept_floats(p.push(x)) == (match x {
            Some(t) => kept_floats(p).push(JsonModel::Num(t)),
            None => kept_floats(p),
        }),
{
    reveal(Seq::filter);
    let pred = |y: Option<Seq<char>>| y is Some;
    let f = |y: Option<Seq<char>>| JsonModel::Num(y.unwrap());
    assert(p.push(x).drop_last() =~= p);
    assert(p.push(x).last() == x);
    match x {
        Some(t) => {
            assert(p.push(x).filter(pred) == p.filter(pred).push(x));
            assert(p.filter(pred).push(x).map_values(f) =~= p.filter(pred).map_values(f).push(
                JsonModel::Num(t),
            ));
        },
        None => {
            assert(p.push(x).filter(pred) == p.filter(pred));
        },
    }
}

/// Whether every comma-separated piece, trimmed, parses as a float.
pub open spec fn pieces_all_parse(pieces: Seq<Seq<char>>) -> bool {
    forall|j: int| 0 <= j < pieces.len() ==> float_parse(trim_spec(#[trigger] pieces[j])) is Some
}

/// The float outcomes of the comma-separated pieces, trimmed.
pub open spec fn pieces_floats(pieces: Seq<Seq<char>>) -> Seq<Option<Seq<char>>> {
    Seq::new(pieces.len(), |j: int| float_parse(trim_spec(pieces[j])).unwrap())
}

/// What `[F64]` conversion yields: the JSON-array-literal reading when the
/// text is one, else the comma-separated reading when every piece parses as
/// a float; non-finite elements are dropped either way.
pub open spec fn f64_array_parse(s: Seq<char>) -> Option<Seq<JsonModel>> {
    match json_float_array(s) {
        Some(elems) => Some(kept_floats(elems)),
        None => {
            let pieces = split_sub(s, seq![',']);
            if pieces_all_parse(pieces) {
                Some(kept_floats(pieces_floats(pieces)))
            } else {
                None
            }
        },
    }
}

/// The typed JSON value a wire string converts to under a declared type,
/// or nothing when the conversion fails.
pub open spec fn coerce_model(s: Seq<char>, t: HelixType) -> Option<JsonModel> {
    match t {
        HelixType::String => Some(JsonModel::Str(s)),
        HelixType::ID => Some(JsonModel::Str(s)),
        HelixType::I32 => match parse_signed(s, i32::MIN as int, i32::MAX as int) {
            Some(n) => Some(JsonModel::Int(n)),
            None => None,
        },
        HelixType::I64 => match parse_signed(s, i64::MIN as int, i64::MAX as int) {
            Some(n) => Some(JsonModel::Int(n)),
            None => None,
        },
        HelixType::U32 => match parse_unsigned(s, u32::MAX as int) {
            Some(n) => Some(JsonModel::Uint(n)),
            None => None,
        },
        HelixType::U64 => match parse_unsigned(s, u64::MAX as int) {
            Some(n) => Some(JsonModel::Uint(n)),
            None => None,
        },
        HelixType::U128 => match parse_unsigned(s, u128::MAX as int) {
            Some(n) => match u128_float(n as u128) {
                Some(t) => Some(JsonModel::Num(t)),
                None => None,
            },
            None => None,
        },
        HelixType::F64 => match float_parse(s) {
            Some(Some(t)) => Some(JsonModel::Num(t)),
            _ => None,
        },
        HelixType::Array(inner) => match *inner {
            HelixType::F64 => match f64_array_parse(s) {
                Some(elems) => Some(JsonModel::Array(elems)),
                None => None,
            },
            _ => None,
        },
    }
}

/// The cause text of a failed conversion.
pub open spec fn coerce_cause(s: Seq<char>, t: HelixType) -> Seq<char> {
    match t {
        HelixType::I32 => int_kind_msg(int_parse_kind(s, i32::MIN as int, i32::MAX as int)),
        HelixType::I64 => int_kind_msg(int_parse_kind(s, i64::MIN as int, i64::MAX as int)),
        HelixType::U32 => int_kind_msg(uint_parse_kind(s, u32::MAX as int)),
        HelixType::U64 => int_kind_msg(uint_parse_kind(s, u64::MAX as int)),
        HelixType::U128 => match parse_unsigned(s, u128::MAX as int) {
            Some(_) => "Number too large for JSON representation"@,
            None => int_kind_msg(uint_parse_kind(s, u128::MAX as int)),
        },
        HelixType::F64 => match float_parse(s) {
            None => "invalid float literal"@,
            _ => "Invalid float value for JSON"@,
        },
        HelixType::Array(inner) => match *inner {
            HelixType::F64 => "Failed to parse array: invalid float literal"@,
            _ => "Array type not yet supported"@,
        },
        _ => Seq::empty(),
    }
}

fn conversion_err(value: &str, t: HelixType, cause: String) -> (e: HelixTypeError)
    ensures
        is_conversion_err(e, value@, t, cause@),
{
    HelixTypeError::Conversion {
        value: string_of(chars_of(value).as_slice()),
        expected_type: t,
        error: cause,
    }
}

/// Conversion of wire strings to typed JSON values under a declared type.
pub trait ToJson {
    fn to_json(&self, helix_type: &HelixType) -> Result<JsonValue, HelixTypeError>;
}

impl ToJson for str {
    /// Convert this string to the JSON value of the declared type; on
    /// failure, a `Conversion` error carrying the string, the type, and the
    /// cause.
    fn to_json(&self, helix_type: &HelixType) -> (r: Result<JsonValue, HelixTypeError>)
        ensures
            match r {
                Ok(j) => coerce_model(self@, *helix_type) == Some(j@),
                Err(e) => coerce_model(self@, *helix_type) is None && is_conversion_err(
                    e,
                    self@,
                    *helix_type,
                    coerce_cause(self@, *helix_type),
                ),
            },
    {
        let v = chars_of(self);
        match helix_type {
            HelixType::String => Ok(JsonValue::Str(string_of(v.as_slice()))),
            HelixType::ID => Ok(JsonValue::Str(string_of(v.as_slice()))),
            HelixType::I32 => match parse_i32_res(v.as_slice()) {
                Ok(n) => Ok(JsonValue::Int(n as i64)),
                Err(k) => Err(
                    conversion_err(self, HelixType::I32, int_kind_msg_exec(k)),
                ),
            },
            HelixType::I64 => match parse_i64_res(v.as_slice()) {
                Ok(n) => Ok(JsonValue::Int(n)),
                Err(k) => Err(
                    conversion_err(self, HelixType::I64, int_kind_msg_exec(k)),
                ),
            },
            HelixType::U32 => match parse_u32_res(v.as_slice()) {
                Ok(n) => Ok(JsonValue::Uint(n as u64)),
                Err(k) => Err(
                    conversion_err(self, HelixType::U32, int_kind_msg_exec(k)),
                ),
            },
            HelixType::U64 => match parse_u64_res(v.as_slice()) {
                Ok(n) => Ok(JsonValue::Uint(n)),
                Err(k) => Err(
                    conversion_err(self, HelixType::U64, int_kind_msg_exec(k)),
                ),
            },
            HelixType::U128 => match parse_u128_res(v.as_slice()) {
                Ok(n) => match u128_float_text(n) {
                    Some(t) => Ok(JsonValue::Num(t)),
                    None => Err(
                        conversion_err(
                            self,
                            HelixType::U128,
                            string_of(
                                chars_of("Number too large for JSON representation").as_slice(),
                            ),
                        ),
                    ),
                },
                Err(k) => Err(
                    conversion_err(self, HelixType::U128, int_kind_msg_exec(k)),
                ),
            },
            HelixType::F64 => match parse_float_text(self) {
                Some(Some(t)) => Ok(JsonValue::Num(t)),
                Some(None) => Err(
                    conversion_err(
                        self,
                        HelixType::F64,
                        string_of(chars_of("Invalid float value for JSON").as_slice()),
                    ),
                ),
                None => Err(
                    conversion_err(
                        self,
                        HelixType::F64,
                        string_of(chars_of("invalid float literal").as_slice()),
                    ),
                ),
            },
            HelixType::Array(inner) => match &**inner {
                HelixType::F64 => match f64_array_exec(self) {
                    Some(out) => Ok(JsonValue::Array(out)),
                    None => Err(
                        conversion_err(
                            self,
                            HelixType::Array(Box::new(HelixType::F64)),
                            string_of(
                                chars_of("Failed to parse array: invalid float literal").as_slice(),
                            ),
                        ),
                    ),
                },
                _ => {
                    let t = HelixType::Array(Box::new((**inner).clone()));
                    proof {
                        assert(t == *helix_type);
                    }
                    Err(
                        conversion_err(
                            self,
                            t,
                            string_of(chars_of("Array type not yet supported").as_slice()),
                        ),
                    )
                },
            },
        }
    }
}

/// Keep the finite floats of a parsed element list as JSON numbers.
fn keep_floats_exec(elems: Vec<Option<String>>) -> (out: Vec<JsonValue>)
    ensures
        jm_seq(out@) == kept_floats(elems.deep_view()),
{
    let ghost em = elems.deep_view();
    let mut out: Vec<JsonValue> = Vec::new();
    let mut elems = elems;
    let mut taken: usize = 0;
    let n = elems.len();
    proof {
        reveal(Seq::filter);
        lemma_jm_seq(out@);
        assert(em.take(0) =~= Seq::<Option<Seq<char>>>::empty());
        assert(jm_seq(out@) =~= kept_floats(em.take(0)));
    }
    while elems.len() > 0
        invariant
            taken + elems@.len() == em.len(),
            em.len() <= usize::MAX,
            elems.deep_view() =~= em.skip(taken as int),
            jm_seq(out@) == kept_floats(em.take(taken as int)),
        decreases elems@.len(),
    {
        let ghost pre = elems.deep_view();
        let ghost prev = elems@;
        let ghost old_out = out@;
        let x = elems.remove(0);
        proof {
            assert forall|j: int| 0 <= j < prev.len() implies #[trigger] pre[j]
                == prev[j].deep_view() by {}
            assert forall|j: int| 0 <= j < elems@.len() implies #[trigger] elems.deep_view()[j]
                == elems@[j].deep_view() by {}
            assert(elems@ =~= prev.drop_first());
            assert forall|j: int| 0 <= j < elems@.len() implies #[trigger] elems.deep_view()[j]
                == em.skip(taken + 1)[j] by {
                assert(elems.deep_view()[j] == elems@[j].deep_view());
                assert(elems@[j] == prev[j + 1]);
                assert(pre[j + 1] == prev[j + 1].deep_view());
                assert(pre[j + 1] == em.skip(taken as int)[j + 1]);
            }
            assert(elems.deep_view() =~= em.skip(taken + 1));
            assert(x.deep_view() == pre[0]);
            assert(x.deep_view() == em[taken as int]);
        }
        match x {
            Some(t) => {
                out.push(JsonValue::Num(t));
            },
            None => {},
        }
        taken = taken + 1;
        proof {
            lemma_jm_seq(out@);
            lemma_jm_seq(old_out);
            let p = em.take(taken - 1);
            let q = em.take(taken as int);
            assert(q =~= p.push(em[taken - 1]));
            lemma_kept_push(p, em[taken - 1]);
            match em[taken - 1] {
                Some(t) => {
                    assert(jm_seq(out@) =~= kept_floats(p).push(JsonModel::Num(t)));
                },
                None => {
                    assert(jm_seq(out@) =~= kept_floats(p));
                },
            }
        }
    }
    proof {
        assert(em.take(em.len() as int) =~= em);
    }
    out
}

/// The `[F64]` conversion: a JSON array literal, or a comma-separated list
/// of floats; `None` when neither reading succeeds.
#[verifier::loop_isolation(false)]
fn f64_array_exec(s: &str) -> (r: Option<Vec<JsonValue>>)
    ensures
        match r {
            Some(out) => f64_array_parse(s@) == Some(jm_seq(out@)),
            None => f64_array_parse(s@) is None,
        },
{
    match parse_json_float_array(s) {
        Some(elems) => Some(keep_floats_exec(elems)),
        None => {
            let v = chars_of(s);
            let sep: Vec<char> = vec![','];
            let pieces = split_sub_slice(v.as_slice(), sep.as_slice());
            let ghost pm = split_sub(s@, seq![',']);
            proof {
                assert(sep@ =~= seq![',']);
                assert(views_of(pieces@) == pm);
            }
            let mut parsed: Vec<Option<String>> = Vec::new();
            let n = pieces.len();
            let mut i: usize = 0;
            while i < n
                invariant
                    i <= n,
                    n == pieces@.len(),
                    pm == views_of(pieces@),
                    pm.len() == n,
                    parsed.deep_view() =~= pieces_floats(pm).take(i as int),
                    forall|j: int| 0 <= j < i ==> float_parse(trim_spec(#[trigger] pm[j])) is Some,
                decreases n - i,
            {
                let piece = trim_slice(pieces[i].as_slice());
                proof {
                    assert(pieces@[i as int]@ == pm[i as int]);
                }
                let txt = string_of(piece);
                match parse_float_text(txt.as_str()) {
                    Some(x) => {
                        let ghost old_parsed = parsed.deep_view();
                        parsed.push(x);
                        i = i + 1;
                        proof {
                            assert(parsed.deep_view() =~= old_parsed.push(x.deep_view()));
                            assert(x.deep_view() == float_parse(trim_spec(pm[i - 1])).unwrap());
                            assert(parsed.deep_view() =~= pieces_floats(pm).take(i as int));
                        }
                    },
                    None => {
                        proof {
                            assert(!pieces_all_parse(pm));
                        }
                        return None;
                    },
                }
            }
            proof {
                assert(pieces_all_parse(pm));
                assert(pieces_floats(pm).take(n as int) =~= pieces_floats(pm));
            }
            Some(keep_floats_exec(parsed))
        },
    }
}

/// The lenient conversion: like `coerce_model`, but a failed parse falls
/// back to the raw string for `String`-like and signed types and `F64`,
/// and to zero for the unsigned types; only the exact text `Array(F64)`
/// selects the array reading, and an unknown type name passes the string
/// through.
pub open spec fn lenient_model(s: Seq<char>, tname: Seq<char>) -> JsonModel {
    if tname == "String"@ || tname == "ID"@ {
        JsonModel::Str(s)
    } else if tname == "I32"@ {
        match parse_signed(s, i32::MIN as int, i32::MAX as int) {
            Some(n) => JsonModel::Int(n),
            None => JsonModel::Str(s),
        }
    } else if tname == "I64"@ {
        match parse_signed(s, i64::MIN as int, i64::MAX as int) {
            Some(n) => JsonModel::Int(n),
            None => JsonModel::Str(s),
        }
    } else if tname == "U32"@ {
        match parse_unsigned(s, u32::MAX as int) {
            Some(n) => JsonModel::Uint(n),
            None => JsonModel::Uint(0),
        }
    } else if tname == "U64"@ {
        match parse_unsigned(s, u64::MAX as int) {
            Some(n) => JsonModel::Uint(n),
            None => JsonModel::Uint(0),
        }
    } else if tname == "U128"@ {
        match parse_unsigned(s, u128::MAX as int) {
            Some(n) => match u128_float(n as u128) {
                Some(t) => JsonModel::Num(t),
                None => JsonModel::Int(0),
            },
            None => JsonModel::Int(0),
        }
    } else if tname == "F64"@ {
        match float_parse(s) {
            Some(Some(t)) => JsonModel::Num(t),
            Some(None) => JsonModel::Int(0),
            None => JsonModel::Str(s),
        }
    } else if tname == "Array(F64)"@ {
        match f64_array_parse(s) {
            Some(elems) => JsonModel::Array(elems),
            None => JsonModel::Str(s),
        }
    } else {
        JsonModel::Str(s)
    }
}

/// Convert a raw string to a JSON value under a type given by name,
/// falling back instead of failing: unknown names and unparseable values
/// yield the string itself, unsigned parses fall back to zero.
pub fn convert_string_to_type(value: &str, param_type: &str) -> (r: JsonValue)
    ensures
        r@ == lenient_model(value@, param_type@),
{
    let v = chars_of(value);
    if str_eq(param_type, "String") || str_eq(param_type, "ID") {
        JsonValue::Str(string_of(v.as_slice()))
    } else if str_eq(param_type, "I32") {
        match parse_i32_res(v.as_slice()) {
            Ok(n) => JsonValue::Int(n as i64),
            Err(_) => JsonValue::Str(string_of(v.as_slice())),
        }
    } else if str_eq(param_type, "I64") {
        match parse_i64_res(v.as_slice()) {
            Ok(n) => JsonValue::Int(n),
            Err(_) => JsonValue::Str(string_of(v.as_slice())),
        }
    } else if str_eq(param_type, "U32") {
        match parse_u32_res(v.as_slice()) {
            Ok(n) => JsonValue::Uint(n as u64),
            Err(_) => JsonValue::Uint(0),
        }
    } else if str_eq(param_type, "U64") {
        match parse_u64_res(v.as_slice()) {
            Ok(n) => JsonValue::Uint(n),
            Err(_) => JsonValue::Uint(0),
        }
    } else if str_eq(param_type, "U128") {
        match parse_u128_res(v.as_slice()) {
            Ok(n) => match u128_float_text(n) {
                Some(t) => JsonValue::Num(t),
                None => JsonValue::Int(0),
            },
            Err(_) => JsonValue::Int(0),
        }
    } else if str_eq(param_type, "F64") {
        match parse_float_text(value) {
            Some(Some(t)) => JsonValue::Num(t),
            Some(None) => JsonValue::Int(0),
            None => JsonValue::Str(string_of(v.as_slice())),
        }
    } else if str_eq(param_type, "Array(F64)") {
        match f64_array_exec(value) {
            Some(out) => JsonValue::Array(out),
            None => JsonValue::Str(string_of(v.as_slice())),
        }
    } else {
        JsonValue::Str(string_of(v.as_slice()))
    }
}

/// Parse a float array from its text, leniently: the value itself as a
/// string when neither array reading succeeds.
pub fn parse_f64_array(value: &str) -> (r: JsonValue)
    ensures
        r@ == (match f64_array_parse(value@) {
            Some(elems) => JsonModel::Array(elems),
            None => JsonModel::Str(value@),
        }),
{
    match f64_array_exec(value) {
        Some(out) => JsonValue::Array(out),
        None => JsonValue::Str(string_of(chars_of(value).as_slice())),
    }
}

} // verus!
