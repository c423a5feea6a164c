//! The scalar/array type grammar: parsing type names from text, printing them
//! back in canonical form, and mapping them to Rust type names.

use vstd::prelude::*;
use vstd::string::StringExecFns;
use crate::text::{
    append_str, chars_of, slice_eq_str, slice_starts_with, starts_with, string_of,
};

verus! {

broadcast use vstd::string::group_string_axioms;

/// A type in the schema and query grammar: eight scalars and arrays of
/// arbitrary nesting depth.
#[derive(Debug, PartialEq, Eq, Hash)]
pub enum HelixType {
    String,
    I32,
    I64,
    U32,
    U64,
    U128,
    F64,
    ID,
    Array(Box<HelixType>),
}

/// Errors of the type system: a type name that does not parse, or a value
/// that cannot be converted to its declared type.
#[derive(Debug, Clone)]
pub enum HelixTypeError {
    ParseType(String),
    Conversion { value: String, expected_type: HelixType, error: String },
}

/// The canonical text of a type: scalar names, and `[T]` for arrays.
pub open spec fn type_text(t: HelixType) -> Seq<char>
    decreases t,
{
    match t {
        HelixType::String => "String"@,
        HelixType::I32 => "I32"@,
        HelixType::I64 => "I64"@,
        HelixType::U32 => "U32"@,
        HelixType::U64 => "U64"@,
        HelixType::U128 => "U128"@,
        HelixType::F64 => "F64"@,
        HelixType::ID => "ID"@,
        HelixType::Array(inner) => seq!['['] + type_text(*inner) + seq![']'],
    }
}

/// The Rust type name a schema type maps to.
pub open spec fn rust_type_text(t: HelixType) -> Seq<char>
    decreases t,
{
    match t {
        HelixType::String => "String"@,
        HelixType::I32 => "i32"@,
        HelixType::I64 => "i64"@,
        HelixType::U32 => "u32"@,
        HelixType::U64 => "u64"@,
        HelixType::U128 => "u128"@,
        HelixType::F64 => "f64"@,
        HelixType::ID => "String"@,
        HelixType::Array(inner) => "Vec<"@ + rust_type_text(*inner) + seq!['>'],
    }
}

/// The type-name grammar: `s` denotes `t` when it is the scalar's name, the
/// canonical `[T]` array form, or the legacy `Array(T)` alias.
pub open spec fn text_parses_to(s: Seq<char>, t: HelixType) -> bool
    decreases t,
{
    match t {
        HelixType::String => s == "String"@,
        HelixType::I32 => s == "I32"@,
        HelixType::I64 => s == "I64"@,
        HelixType::U32 => s == "U32"@,
        HelixType::U64 => s == "U64"@,
        HelixType::U128 => s == "U128"@,
        HelixType::F64 => s == "F64"@,
        HelixType::ID => s == "ID"@,
        HelixType::Array(inner) => {
            ||| (s.len() >= 2 && s[0] == '[' && s.last() == ']' && text_parses_to(
                s.subrange(1, s.len() - 1),
                *inner,
            ))
            ||| (s.len() >= 7 && starts_with(s, "Array("@) && s.last() == ')' && text_parses_to(
                s.subrange(6, s.len() - 1),
                *inner,
            ))
        },
    }
}

impl HelixType {
    /// Parse a type name from characters, following the grammar of
    /// `text_parses_to`: scalar names first, then `[T]`, then `Array(T)`.
    pub fn parse_chars(v: &[char]) -> (r: Option<HelixType>)
        ensures
            match r {
                Some(t) => text_parses_to(v@, t),
                None => forall|t: HelixType| !text_parses_to(v@, t),
            },
        decreases v@.len(),
    {
        if slice_eq_str(v, "String") {
            Some(HelixType::String)
        } else if slice_eq_str(v, "I32") {
            Some(HelixType::I32)
        } else if slice_eq_str(v, "I64") {
            Some(HelixType::I64)
        } else if slice_eq_str(v, "U32") {
            Some(HelixType::U32)
        } else if slice_eq_str(v, "U64") {
            Some(HelixType::U64)
        } else if slice_eq_str(v, "U128") {
            Some(HelixType::U128)
        } else if slice_eq_str(v, "F64") {
            Some(HelixType::F64)
        } else if slice_eq_str(v, "ID") {
            Some(HelixType::ID)
        } else {
            let n = v.len();
            if n >= 2 && v[0] == '[' && v[n - 1] == ']' {
                let inner = vstd::slice::slice_subrange(v, 1, n - 1);
                match Self::parse_chars(inner) {
                    Some(t) => Some(HelixType::Array(Box::new(t))),
                    None => {
                        proof {
                            reveal_strlit("Array(");
                            assert forall|t: HelixType| !text_parses_to(v@, t) by {
                                match t {
                                    HelixType::Array(u) => {
                                        assert(!text_parses_to(v@.subrange(1, v@.len() - 1), *u));
                                        if starts_with(v@, "Array("@) {
                                            assert(v@.subrange(0, 6)[0] == v@[0]);
                                            assert(v@[0] == 'A');
                                        }
                                    },
                                    _ => {},
                                }
                            }
                        }
                        None
                    },
                }
            } else {
                let pre = chars_of("Array(");
                if n >= 7 && slice_starts_with(v, pre.as_slice()) && v[n - 1] == ')' {
                    let inner = vstd::slice::slice_subrange(v, 6, n - 1);
                    match Self::parse_chars(inner) {
                        Some(t) => Some(HelixType::Array(Box::new(t))),
                        None => {
                            proof {
                                assert forall|t: HelixType| !text_parses_to(v@, t) by {
                                    match t {
                                        HelixType::Array(u) => {
                                            assert(!text_parses_to(
                                                v@.subrange(6, v@.len() - 1),
                                                *u,
                                            ));
                                        },
                                        _ => {},
                                    }
                                }
                            }
                            None
                        },
                    }
                } else {
                    None
                }
            }
        }
    }

    /// Parse a type name from text; an unknown name yields a `ParseType`
    /// error carrying `Unknown type: ` and the offending text.
    pub fn parse_text(s: &str) -> (r: Result<HelixType, HelixTypeError>)
        ensures
            match r {
                Ok(t) => text_parses_to(s@, t),
                Err(e) => (forall|t: HelixType| !text_parses_to(s@, t)) && (
                e matches HelixTypeError::ParseType(m) && m@ == "Unknown type: "@ + s@),
            },
    {
        let v = chars_of(s);
        match Self::parse_chars(v.as_slice()) {
            Some(t) => Ok(t),
            None => {
                let mut m: Vec<char> = Vec::new();
                append_str(&mut m, "Unknown type: ");
                append_str(&mut m, s);
                Err(HelixTypeError::ParseType(string_of(m.as_slice())))
            },
        }
    }

    /// The canonical text of this type: the scalar name, or `[T]` for arrays
    /// (never the legacy `Array(T)` alias).
    pub fn to_text(&self) -> (r: String)
        ensures
            r@ == type_text(*self),
        decreases *self,
    {
        match self {
            HelixType::String => String::from_str("String"),
            HelixType::I32 => String::from_str("I32"),
            HelixType::I64 => String::from_str("I64"),
            HelixType::U32 => String::from_str("U32"),
            HelixType::U64 => String::from_str("U64"),
            HelixType::U128 => String::from_str("U128"),
            HelixType::F64 => String::from_str("F64"),
            HelixType::ID => String::from_str("ID"),
            HelixType::Array(inner) => {
                let mut w: Vec<char> = Vec::new();
                w.push('[');
                let it = inner.to_text();
                append_str(&mut w, it.as_str());
                w.push(']');
                proof {
                    assert(w@ =~= type_text(*self));
                }
                string_of(w.as_slice())
            },
        }
    }

    /// The Rust type this schema type maps to, as text.
    pub fn to_rust_type(&self) -> (r: String)
        ensures
            r@ == rust_type_text(*self),
        decreases *self,
    {
        match self {
            HelixType::String => String::from_str("String"),
            HelixType::I32 => String::from_str("i32"),
            HelixType::I64 => String::from_str("i64"),
            HelixType::U32 => String::from_str("u32"),
            HelixType::U64 => String::from_str("u64"),
            HelixType::U128 => String::from_str("u128"),
            HelixType::F64 => String::from_str("f64"),
            HelixType::ID => String::from_str("String"),
            HelixType::Array(inner) => {
                let mut w: Vec<char> = Vec::new();
                append_str(&mut w, "Vec<");
                let it = inner.to_rust_type();
                append_str(&mut w, it.as_str());
                w.push('>');
                proof {
                    assert(w@ =~= rust_type_text(*self));
                }
                string_of(w.as_slice())
            },
        }
    }
}

impl Clone for HelixType {
    /// A clone is the same type.
    fn clone(&self) -> (r: Self)
        ensures
            r == *self,
        decreases *self,
    {
        match self {
            HelixType::String => HelixType::String,
            HelixType::I32 => HelixType::I32,
            HelixType::I64 => HelixType::I64,
            HelixType::U32 => HelixType::U32,
            HelixType::U64 => HelixType::U64,
            HelixType::U128 => HelixType::U128,
            HelixType::F64 => HelixType::F64,
            HelixType::ID => HelixType::ID,
            HelixType::Array(inner) => HelixType::Array(Box::new((**inner).clone())),
        }
    }
}

impl core::str::FromStr for HelixType {
    type Err = HelixTypeError;

    fn from_str(s: &str) -> Result<HelixType, HelixTypeError> {
        HelixType::parse_text(s)
    }
}

/// Printing a type and parsing the text back denotes the same type: the
/// canonical form round-trips, for scalars and arrays alike.
pub proof fn lemma_to_text_parses(t: HelixType)
    ensures
        text_parses_to(type_text(t), t),
    decreases t,
{
    match t {
        HelixType::Array(inner) => {
            lemma_to_text_parses(*inner);
            let s = type_text(t);
            assert(s.len() >= 2);
            assert(s[0] == '[');
            assert(s.last() == ']');
            assert(s.subrange(1, s.len() - 1) =~= type_text(*inner));
        },
        _ => {},
    }
}

/// A type name denotes at most one type: whatever a text parses to is
/// unique, so parse-then-print is the identity on canonical names.
pub proof fn lemma_parse_unique(s: Seq<char>, t1: HelixType, t2: HelixType)
    requires
        text_parses_to(s, t1),
        text_parses_to(s, t2),
    ensures
        t1 == t2,
    decreases t1,
{
    reveal_strlit("String");
    reveal_strlit("I32");
    reveal_strlit("I64");
    reveal_strlit("U32");
    reveal_strlit("U64");
    reveal_strlit("U128");
    reveal_strlit("F64");
    reveal_strlit("ID");
    reveal_strlit("Array(");
    match (t1, t2) {
        (HelixType::Array(u1), HelixType::Array(u2)) => {
            if starts_with(s, "Array("@) {
                assert(s.subrange(0, 6)[0] == s[0]);
                assert(s[0] == 'A');
            }
            if s.len() >= 2 && s[0] == '[' && s.last() == ']' {
                assert(text_parses_to(s.subrange(1, s.len() - 1), *u1));
                assert(text_parses_to(s.subrange(1, s.len() - 1), *u2));
                lemma_parse_unique(s.subrange(1, s.len() - 1), *u1, *u2);
                assert(*u1 == *u2);
                assert(u1 == u2);
                assert(t1 == t2);
            } else {
                assert(text_parses_to(s.subrange(6, s.len() - 1), *u1));
                assert(text_parses_to(s.subrange(6, s.len() - 1), *u2));
                lemma_parse_unique(s.subrange(6, s.len() - 1), *u1, *u2);
                assert(*u1 == *u2);
                assert(u1 == u2);
                assert(t1 == t2);
            }
        },
        (HelixType::Array(u1), _) => {
            assert(s.len() <= 6);
            assert(false);
        },
        (_, HelixType::Array(u2)) => {
            assert(s.len() <= 6);
            assert(false);
        },
        _ => {
            assert("String"@.len() == 6 && "U128"@.len() == 4 && "ID"@.len() == 2);
            assert("I32"@[0] == 'I' && "I32"@[1] == '3' && "I32"@[2] == '2');
            assert("I64"@[0] == 'I' && "I64"@[1] == '6' && "I64"@[2] == '4');
            assert("U32"@[0] == 'U' && "U32"@[1] == '3' && "U32"@[2] == '2');
            assert("U64"@[0] == 'U' && "U64"@[1] == '6' && "U64"@[2] == '4');
            assert("F64"@[0] == 'F' && "F64"@[1] == '6' && "F64"@[2] == '4');
            assert(t1 == t2);
        },
    }
}

/// Legacy alias equivalence: whenever some text denotes the element type,
/// wrapping it as `[T]` and as `Array(T)` denotes the same array type.
pub proof fn lemma_array_alias(s: Seq<char>, arr: HelixType)
    requires
        arr matches HelixType::Array(inner) && text_parses_to(s, *inner),
    ensures
        text_parses_to(seq!['['] + s + seq![']'], arr),
        text_parses_to("Array("@ + s + seq![')'], arr),
{
    reveal_strlit("Array(");
    let b = seq!['['] + s + seq![']'];
    let inner_t = arr->0;
    assert(text_parses_to(s, *inner_t));
    assert(s.len() > 0) by {
        if s.len() == 0 {
            lemma_nonempty(*inner_t, s);
        }
    }
    assert(b.len() >= 2);
    assert(b[0] == '[');
    assert(b.last() == ']');
    assert(b.subrange(1, b.len() - 1) =~= s);
    let l = "Array("@ + s + seq![')'];
    assert(l.len() >= 7);
    assert(starts_with(l, "Array("@)) by {
        assert(l.subrange(0, 6) =~= "Array("@);
    }
    assert(l.last() == ')');
    assert(l.subrange(6, l.len() - 1) =~= s);
}

/// Printing then parsing returns the same type: whatever `to_text`'s output
/// parses to is the type it was printed from.
pub proof fn lemma_text_round_trip(t: HelixType, u: HelixType)
    requires
        text_parses_to(type_text(t), u),
    ensures
        u == t,
{
    lemma_to_text_parses(t);
    lemma_parse_unique(type_text(t), u, t);
}

proof fn lemma_nonempty(t: HelixType, s: Seq<char>)
    requires
        text_parses_to(s, t),
    ensures
        s.len() > 0,
{
    reveal_strlit("String");
    reveal_strlit("I32");
    reveal_strlit("I64");
    reveal_strlit("U32");
    reveal_strlit("U64");
    reveal_strlit("U128");
    reveal_strlit("F64");
    reveal_strlit("ID");
}

} // verus!
