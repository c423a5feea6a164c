//! A JSON value tree with insertion-ordered objects, its mathematical model,
//! and the canonicalizer that imposes a deterministic key order: keys that are
//! all ASCII digits first (sorted by numeric value, stably), then the key
//! `id`, then the remaining keys in their original order, recursively.

use vstd::prelude::*;
use crate::text::{all_digits, parse_digits, parse_digits_u64};

verus! {

broadcast use vstd::string::group_string_axioms, vstd::std_specs::vec::group_vec_axioms;

/// A JSON value. Objects keep their fields in insertion order; non-integer
/// numbers carry their JSON literal text.
#[derive(Debug)]
pub enum JsonValue {
    Null,
    Bool(bool),
    Int(i64),
    Uint(u64),
    Num(String),
    Str(String),
    Array(Vec<JsonValue>),
    Object(Vec<(String, JsonValue)>),
}

/// The mathematical model of a JSON value.
pub enum JsonModel {
    Null,
    Bool(bool),
    Int(int),
    Uint(int),
    Num(Seq<char>),
    Str(Seq<char>),
    Array(Seq<JsonModel>),
    Object(Seq<(Seq<char>, JsonModel)>),
}

/// The model of a value.
pub open spec fn jm(v: JsonValue) -> JsonModel
    decreases v,
{
    match v {
        JsonValue::Null => JsonModel::Null,
        JsonValue::Bool(b) => JsonModel::Bool(b),
        JsonValue::Int(n) => JsonModel::Int(n as int),
        JsonValue::Uint(n) => JsonModel::Uint(n as int),
        JsonValue::Num(t) => JsonModel::Num(t@),
        JsonValue::Str(t) => JsonModel::Str(t@),
        JsonValue::Array(elems) => JsonModel::Array(jm_seq(elems@)),
        JsonValue::Object(fields) => JsonModel::Object(jm_fields(fields@)),
    }
}

/// The models of a sequence of values.
pub open spec fn jm_seq(elems: Seq<JsonValue>) -> Seq<JsonModel>
    decreases elems,
{
    if elems.len() == 0 {
        Seq::empty()
    } else {
        seq![jm(elems[0])] + jm_seq(elems.drop_first())
    }
}

/// The models of a field list.
pub open spec fn jm_fields(fields: Seq<(String, JsonValue)>) -> Seq<(Seq<char>, JsonModel)>
    decreases fields,
{
    if fields.len() == 0 {
        Seq::empty()
    } else {
        seq![(fields[0].0@, jm(fields[0].1))] + jm_fields(fields.drop_first())
    }
}

pub proof fn lemma_jm_seq(elems: Seq<JsonValue>)
    ensures
        jm_seq(elems).len() == elems.len(),
        forall|i: int| 0 <= i < elems.len() ==> #[trigger] jm_seq(elems)[i] == jm(elems[i]),
    decreases elems.len(),
{
    if elems.len() > 0 {
        lemma_jm_seq(elems.drop_first());
        assert forall|i: int| 0 <= i < elems.len() implies #[trigger] jm_seq(elems)[i] == jm(
            elems[i],
        ) by {
            if i > 0 {
                assert(jm_seq(elems.drop_first())[i - 1] == jm(elems.drop_first()[i - 1]));
                assert(elems.drop_first()[i - 1] == elems[i]);
            }
        }
    }
}

pub proof fn lemma_jm_fields(fields: Seq<(String, JsonValue)>)
    ensures
        jm_fields(fields).len() == fields.len(),
        forall|i: int|
            0 <= i < fields.len() ==> #[trigger] jm_fields(fields)[i] == (fields[i].0@, jm(
                fields[i].1,
            )),
    decreases fields.len(),
{
    if fields.len() > 0 {
        lemma_jm_fields(fields.drop_first());
        assert forall|i: int| 0 <= i < fields.len() implies #[trigger] jm_fields(fields)[i] == (
        fields[i].0@, jm(fields[i].1)) by {
            if i > 0 {
                assert(jm_fields(fields.drop_first())[i - 1] == (fields.drop_first()[i - 1].0@, jm(
                    fields.drop_first()[i - 1].1,
                )));
                assert(fields.drop_first()[i - 1] == fields[i]);
            }
        }
    }
}

impl View for JsonValue {
    type V = JsonModel;

    open spec fn view(&self) -> JsonModel {
        jm(*self)
    }
}

/// The numeric rank an all-digit key sorts by: its value as a decimal
/// number, or zero when it is empty or exceeds `u64::MAX`.
pub open spec fn key_num(k: Seq<char>) -> int {
    match parse_digits(k, u64::MAX as int) {
        Some(n) => n,
        None => 0,
    }
}

/// Insert a field into a run already sorted by `key_num`, after every entry
/// whose rank is not larger, so that equal ranks keep their original order.
pub open spec fn insert_num(
    sorted: Seq<(Seq<char>, JsonModel)>,
    f: (Seq<char>, JsonModel),
) -> Seq<(Seq<char>, JsonModel)>
    decreases sorted.len(),
{
    if sorted.len() > 0 && key_num(sorted.last().0) > key_num(f.0) {
        insert_num(sorted.drop_last(), f).push(sorted.last())
    } else {
        sorted.push(f)
    }
}

/// Stable sort of the all-digit fields by numeric key value.
pub open spec fn sort_nums(fs: Seq<(Seq<char>, JsonModel)>) -> Seq<(Seq<char>, JsonModel)>
    decreases fs.len(),
{
    if fs.len() == 0 {
        Seq::empty()
    } else {
        insert_num(sort_nums(fs.drop_last()), fs.last())
    }
}

/// The fields whose key is all digits.
pub open spec fn fld_num_pred() -> spec_fn((Seq<char>, JsonModel)) -> bool {
    |f: (Seq<char>, JsonModel)| all_digits(f.0)
}

/// The field with the literal key `id`.
pub open spec fn fld_id_pred() -> spec_fn((Seq<char>, JsonModel)) -> bool {
    |f: (Seq<char>, JsonModel)| !all_digits(f.0) && f.0 == "id"@
}

/// Every remaining field.
pub open spec fn fld_other_pred() -> spec_fn((Seq<char>, JsonModel)) -> bool {
    |f: (Seq<char>, JsonModel)| !all_digits(f.0) && f.0 != "id"@
}

/// The canonical order of an object's fields: all-digit keys sorted by
/// numeric value, then `id`, then the rest in their original order.
pub open spec fn sort_object_fields(fs: Seq<(Seq<char>, JsonModel)>) -> Seq<
    (Seq<char>, JsonModel),
> {
    sort_nums(fs.filter(fld_num_pred())) + fs.filter(fld_id_pred()) + fs.filter(fld_other_pred())
}

/// The canonical form of a JSON value: scalars pass through, arrays are
/// canonicalized elementwise in order, and each object's fields are
/// canonicalized bottom-up and reordered by `sort_object_fields`.
pub open spec fn canon(m: JsonModel) -> JsonModel
    decreases m,
{
    match m {
        JsonModel::Array(elems) => JsonModel::Array(canon_seq(elems)),
        JsonModel::Object(fields) => JsonModel::Object(sort_object_fields(canon_fields(fields))),
        other => other,
    }
}

/// Elementwise canonicalization of a sequence.
pub open spec fn canon_seq(elems: Seq<JsonModel>) -> Seq<JsonModel>
    decreases elems,
{
    if elems.len() == 0 {
        Seq::empty()
    } else {
        seq![canon(elems[0])] + canon_seq(elems.drop_first())
    }
}

/// Valuewise canonicalization of a field list, keys untouched.
pub open spec fn canon_fields(fields: Seq<(Seq<char>, JsonModel)>) -> Seq<(Seq<char>, JsonModel)>
    decreases fields,
{
    if fields.len() == 0 {
        Seq::empty()
    } else {
        seq![(fields[0].0, canon(fields[0].1))] + canon_fields(fields.drop_first())
    }
}

pub proof fn lemma_canon_seq(elems: Seq<JsonModel>)
    ensures
        canon_seq(elems).len() == elems.len(),
        forall|i: int| 0 <= i < elems.len() ==> #[trigger] canon_seq(elems)[i] == canon(elems[i]),
    decreases elems.len(),
{
    if elems.len() > 0 {
        lemma_canon_seq(elems.drop_first());
        assert forall|i: int| 0 <= i < elems.len() implies #[trigger] canon_seq(elems)[i] == canon(
            elems[i],
        ) by {
            if i > 0 {
                assert(canon_seq(elems.drop_first())[i - 1] == canon(elems.drop_first()[i - 1]));
                assert(elems.drop_first()[i - 1] == elems[i]);
            }
        }
    }
}

pub proof fn lemma_canon_fields(fields: Seq<(Seq<char>, JsonModel)>)
    ensures
        canon_fields(fields).len() == fields.len(),
        forall|i: int|
            0 <= i < fields.len() ==> #[trigger] canon_fields(fields)[i] == (fields[i].0, canon(
                fields[i].1,
            )),
    decreases fields.len(),
{
    if fields.len() > 0 {
        lemma_canon_fields(fields.drop_first());
        assert forall|i: int| 0 <= i < fields.len() implies #[trigger] canon_fields(fields)[i] == (
        fields[i].0, canon(fields[i].1)) by {
            if i > 0 {
                assert(canon_fields(fields.drop_first())[i - 1] == (fields.drop_first()[i - 1].0,
                canon(fields.drop_first()[i - 1].1)));
                assert(fields.drop_first()[i - 1] == fields[i]);
            }
        }
    }
}

/// Clone of a string, by view.
pub fn clone_string(s: &String) -> (r: String)
    ensures
        r@ == s@,
{
    s.clone()
}

/// Numeric rank of a key, as executed.
fn key_num_exec(k: &String) -> (r: u64)
    ensures
        r == key_num(k@),
{
    let v = crate::text::chars_of(k.as_str());
    match parse_digits_u64(v.as_slice()) {
        Some(n) => n,
        None => 0,
    }
}

/// Whether every character of the key is an ASCII digit.
fn all_digits_exec(k: &String) -> (r: bool)
    ensures
        r == all_digits(k@),
{
    let v = crate::text::chars_of(k.as_str());
    let mut i: usize = 0;
    while i < v.len()
        invariant
            i <= v@.len(),
            v@ == k@,
            forall|j: int| 0 <= j < i ==> crate::text::is_digit(#[trigger] k@[j]),
        decreases v@.len() - i,
    {
        let cu = v[i] as u32;
        if !(48 <= cu && cu <= 57) {
            return false;
        }
        i = i + 1;
    }
    true
}

proof fn lemma_insert_num_at(
    sorted: Seq<(Seq<char>, JsonModel)>,
    f: (Seq<char>, JsonModel),
    idx: int,
)
    requires
        0 <= idx <= sorted.len(),
        forall|j: int| idx <= j < sorted.len() ==> key_num((#[trigger] sorted[j]).0) > key_num(f.0),
        idx > 0 ==> key_num(sorted[idx - 1].0) <= key_num(f.0),
    ensures
        insert_num(sorted, f) == sorted.subrange(0, idx) + seq![f] + sorted.subrange(
            idx,
            sorted.len() as int,
        ),
    decreases sorted.len() - idx,
{
    if idx == sorted.len() {
        assert(insert_num(sorted, f) == sorted.push(f));
        assert(sorted.subrange(0, idx) + seq![f] + sorted.subrange(idx, sorted.len() as int)
            =~= sorted.push(f));
    } else {
        assert(key_num(sorted.last().0) > key_num(f.0));
        lemma_insert_num_at(sorted.drop_last(), f, idx);
        assert(sorted.drop_last().subrange(0, idx) =~= sorted.subrange(0, idx));
        assert(sorted.drop_last().subrange(idx, sorted.len() - 1) =~= sorted.subrange(
            idx,
            sorted.len() - 1,
        ));
        assert((sorted.subrange(0, idx) + seq![f] + sorted.subrange(idx, sorted.len() - 1)).push(
            sorted.last(),
        ) =~= sorted.subrange(0, idx) + seq![f] + sorted.subrange(idx, sorted.len() as int));
    }
}

/// Stable insertion sort of fields by numeric key rank, matching `sort_nums`.
fn sort_fields_by_num(fields: Vec<(String, JsonValue)>) -> (r: Vec<(String, JsonValue)>)
    ensures
        jm_fields(r@) == sort_nums(jm_fields(fields@)),
{
    let ghost orig = jm_fields(fields@);
    let mut fields = fields;
    proof {
        lemma_jm_fields(fields@);
    }
    let mut r: Vec<(String, JsonValue)> = Vec::new();
    let mut taken: usize = 0;
    let flen = fields.len();
    proof {
        assert(orig.len() == flen as int);
        assert(orig.take(0) =~= Seq::<(Seq<char>, JsonModel)>::empty());
        assert(jm_fields(r@) =~= Seq::<(Seq<char>, JsonModel)>::empty());
    }
    while fields.len() > 0
        invariant
            taken + fields@.len() == orig.len(),
            orig.len() <= usize::MAX,
            jm_fields(fields@) =~= orig.skip(taken as int),
            jm_fields(r@) == sort_nums(orig.take(taken as int)),
            forall|a: int, b: int|
                0 <= a < b < jm_fields(r@).len() ==> key_num((#[trigger] jm_fields(r@)[a]).0)
                    <= key_num((#[trigger] jm_fields(r@)[b]).0),
        decreases fields@.len(),
    {
        let ghost pre_fields = fields@;
        let f = fields.remove(0);
        proof {
            lemma_jm_fields(pre_fields);
            lemma_jm_fields(fields@);
            assert(jm_fields(fields@) =~= jm_fields(pre_fields).drop_first());
            assert(jm_fields(pre_fields).drop_first() =~= orig.skip(taken + 1));
            assert(jm_fields(pre_fields)[0] == (f.0@, jm(f.1)));
            assert(orig[taken as int] == (f.0@, jm(f.1)));
            lemma_jm_fields(r@);
        }
        let fkey = key_num_exec(&f.0);
        let mut idx: usize = r.len();
        while idx > 0 && key_num_exec(&r[idx - 1].0) > fkey
            invariant
                0 <= idx <= r@.len(),
                fkey == key_num(f.0@),
                jm_fields(r@).len() == r@.len(),
                forall|i: int|
                    0 <= i < r@.len() ==> jm_fields(r@)[i] == ((#[trigger] r@[i]).0@, jm(r@[i].1)),
                forall|j: int|
                    idx <= j < r@.len() ==> key_num((#[trigger] jm_fields(r@)[j]).0) > key_num(
                        f.0@,
                    ),
            decreases idx,
        {
            idx = idx - 1;
        }
        proof {
            lemma_insert_num_at(jm_fields(r@), (f.0@, jm(f.1)), idx as int);
        }
        let ghost old_r = r@;
        let ghost old_taken = taken as int;
        r.insert(idx, f);
        taken = taken + 1;
        proof {
            lemma_jm_fields(r@);
            lemma_jm_fields(old_r);
            let target = jm_fields(old_r).subrange(0, idx as int) + seq![(f.0@, jm(f.1))]
                + jm_fields(old_r).subrange(idx as int, old_r.len() as int);
            assert(r@ == old_r.subrange(0, idx as int).push(f) + old_r.subrange(
                idx as int,
                old_r.len() as int,
            ));
            assert forall|i: int| 0 <= i < jm_fields(r@).len() implies jm_fields(r@)[i]
                == target[i] by {
                if i < idx {
                    assert(r@[i] == old_r[i]);
                } else if i == idx {
                    assert(r@[i] == f);
                } else {
                    assert(r@[i] == old_r[i - 1]);
                }
            }
            assert(jm_fields(r@) =~= target);
            assert(jm_fields(r@) == insert_num(sort_nums(orig.take(old_taken)), (f.0@, jm(f.1))));
            assert(orig.take(old_taken + 1).drop_last() =~= orig.take(old_taken));
            assert(orig.take(old_taken + 1).last() == orig[old_taken]);
            assert(sort_nums(orig.take(old_taken + 1)) == insert_num(
                sort_nums(orig.take(old_taken)),
                (f.0@, jm(f.1)),
            ));
        }
    }
    proof {
        assert(orig.take(orig.len() as int) =~= orig);
    }
    r
}

proof fn lemma_jm_fields_add(a: Seq<(String, JsonValue)>, b: Seq<(String, JsonValue)>)
    ensures
        jm_fields(a + b) == jm_fields(a) + jm_fields(b),
{
    lemma_jm_fields(a);
    lemma_jm_fields(b);
    lemma_jm_fields(a + b);
    assert forall|i: int| 0 <= i < jm_fields(a + b).len() implies jm_fields(a + b)[i] == (
    jm_fields(a) + jm_fields(b))[i] by {
        if i < a.len() {
            assert((a + b)[i] == a[i]);
        } else {
            assert((a + b)[i] == b[i - a.len()]);
        }
    }
    assert(jm_fields(a + b) =~= jm_fields(a) + jm_fields(b));
}

/// Append every field of `src` to `dst`, in order.
fn append_fields(dst: &mut Vec<(String, JsonValue)>, src: Vec<(String, JsonValue)>)
    ensures
        final(dst)@ == old(dst)@ + src@,
{
    let mut src = src;
    let ghost orig_src = src@;
    let ghost done: int = 0;
    let mut taken: usize = 0;
    let slen = src.len();
    while src.len() > 0
        invariant
            taken + src@.len() == orig_src.len(),
            orig_src.len() <= usize::MAX,
            src@ =~= orig_src.skip(taken as int),
            dst@ == old(dst)@ + orig_src.take(taken as int),
        decreases src@.len(),
    {
        let ghost pre = src@;
        let f = src.remove(0);
        proof {
            assert(src@ =~= orig_src.skip(taken + 1));
        }
        dst.push(f);
        taken = taken + 1;
        proof {
            assert(old(dst)@ + orig_src.take(taken as int) =~= (old(dst)@ + orig_src.take(
                taken - 1,
            )).push(orig_src[taken - 1]));
        }
    }
    proof {
        assert(old(dst)@ + orig_src.take(taken as int) =~= old(dst)@ + orig_src);
    }
}

/// Canonicalize a JSON value: recursively reorder every object's keys into
/// the deterministic order of `canon`, leaving everything else as it is.
pub fn sort_json_object(value: JsonValue) -> (r: JsonValue)
    ensures
        r@ == canon(value@),
{
    canon_ref(&value)
}

#[verifier::loop_isolation(false)]
fn canon_ref(v: &JsonValue) -> (r: JsonValue)
    ensures
        r@ == canon(v@),
    decreases *v,
{
    match v {
        JsonValue::Null => JsonValue::Null,
        JsonValue::Bool(b) => JsonValue::Bool(*b),
        JsonValue::Int(n) => JsonValue::Int(*n),
        JsonValue::Uint(n) => JsonValue::Uint(*n),
        JsonValue::Num(t) => JsonValue::Num(clone_string(t)),
        JsonValue::Str(t) => JsonValue::Str(clone_string(t)),
        JsonValue::Array(elems) => {
            let ghost em = jm_seq(elems@);
            proof {
                lemma_jm_seq(elems@);
                lemma_canon_seq(em);
            }
            let mut out: Vec<JsonValue> = Vec::new();
            let n = elems.len();
            let mut i: usize = 0;
            while i < n
                invariant
                    i <= n,
                    n == elems@.len(),
                    out@.len() == i,
                    forall|j: int| 0 <= j < i ==> jm(#[trigger] out@[j]) == canon(em[j]),
                decreases n - i,
            {
                let cv = canon_ref(&elems[i]);
                out.push(cv);
                i = i + 1;
            }
            proof {
                lemma_jm_seq(out@);
                assert(jm_seq(out@) =~= canon_seq(em));
            }
            JsonValue::Array(out)
        },
        JsonValue::Object(fields) => {
            let ghost fm = jm_fields(fields@);
            let ghost cf = canon_fields(fm);
            proof {
                lemma_jm_fields(fields@);
                lemma_canon_fields(fm);
                reveal(Seq::filter);
                assert(cf.take(0) =~= Seq::<(Seq<char>, JsonModel)>::empty());
            }
            let ghost p_num = fld_num_pred();
            let ghost p_id = fld_id_pred();
            let ghost p_other = fld_other_pred();
            let mut nums: Vec<(String, JsonValue)> = Vec::new();
            let mut ids: Vec<(String, JsonValue)> = Vec::new();
            let mut others: Vec<(String, JsonValue)> = Vec::new();
            let n = fields.len();
            let mut i: usize = 0;
            while i < n
                invariant
                    i <= n,
                    n == fields@.len(),
                    fm == jm_fields(fields@),
                    cf == canon_fields(fm),
                    fm.len() == n,
                    cf.len() == n,
                    forall|j: int| 0 <= j < n ==> fm[j] == ((#[trigger] fields@[j]).0@, jm(fields@[j].1)),
                    forall|j: int| 0 <= j < n ==> cf[j] == ((#[trigger] fm[j]).0, canon(fm[j].1)),
                    jm_fields(nums@) =~= cf.take(i as int).filter(p_num),
                    jm_fields(ids@) =~= cf.take(i as int).filter(p_id),
                    jm_fields(others@) =~= cf.take(i as int).filter(p_other),
                decreases n - i,
            {
                let k = clone_string(&fields[i].0);
                let cv = canon_ref(&fields[i].1);
                proof {
                    assert((k@, cv@) == cf[i as int]);
                }
                let ghost old_nums = nums@;
                let ghost old_ids = ids@;
                let ghost old_others = others@;
                if all_digits_exec(&k) {
                    nums.push((k, cv));
                } else if crate::text::str_eq(k.as_str(), "id") {
                    ids.push((k, cv));
                } else {
                    others.push((k, cv));
                }
                i = i + 1;
                proof {
                    reveal(Seq::filter);
                    lemma_jm_fields(nums@);
                    lemma_jm_fields(ids@);
                    lemma_jm_fields(others@);
                    lemma_jm_fields(old_nums);
                    lemma_jm_fields(old_ids);
                    lemma_jm_fields(old_others);
                    assert(cf.take(i as int).drop_last() =~= cf.take(i - 1));
                    assert(cf.take(i as int).last() == cf[i - 1]);
                    if all_digits(cf[i - 1].0) {
                        assert(jm_fields(nums@) =~= jm_fields(old_nums).push(cf[i - 1]));
                        assert(jm_fields(ids@) =~= jm_fields(old_ids));
                        assert(jm_fields(others@) =~= jm_fields(old_others));
                    } else if cf[i - 1].0 == "id"@ {
                        assert(jm_fields(ids@) =~= jm_fields(old_ids).push(cf[i - 1]));
                        assert(jm_fields(nums@) =~= jm_fields(old_nums));
                        assert(jm_fields(others@) =~= jm_fields(old_others));
                    } else {
                        assert(jm_fields(others@) =~= jm_fields(old_others).push(cf[i - 1]));
                        assert(jm_fields(nums@) =~= jm_fields(old_nums));
                        assert(jm_fields(ids@) =~= jm_fields(old_ids));
                    }
                }
            }
            proof {
                assert(cf.take(n as int) =~= cf);
            }
            let ghost nums_v = nums@;
            let ghost ids_v = ids@;
            let ghost others_v = others@;
            let mut out = sort_fields_by_num(nums);
            let ghost sorted_v = out@;
            append_fields(&mut out, ids);
            append_fields(&mut out, others);
            proof {
                assert(out@ == sorted_v + ids_v + others_v);
                lemma_jm_fields_add(sorted_v + ids_v, others_v);
                lemma_jm_fields_add(sorted_v, ids_v);
                assert((sorted_v + ids_v) + others_v =~= sorted_v + ids_v + others_v);
                assert(jm_fields(out@) == sort_object_fields(cf));
            }
            JsonValue::Object(out)
        },
    }
}

/// A structural copy of a JSON value.
#[verifier::loop_isolation(false)]
pub fn clone_json(v: &JsonValue) -> (r: JsonValue)
    ensures
        r@ == v@,
    decreases *v,
{
    match v {
        JsonValue::Null => JsonValue::Null,
        JsonValue::Bool(b) => JsonValue::Bool(*b),
        JsonValue::Int(n) => JsonValue::Int(*n),
        JsonValue::Uint(n) => JsonValue::Uint(*n),
        JsonValue::Num(t) => JsonValue::Num(clone_string(t)),
        JsonValue::Str(t) => JsonValue::Str(clone_string(t)),
        JsonValue::Array(elems) => {
            proof {
                lemma_jm_seq(elems@);
            }
            let mut out: Vec<JsonValue> = Vec::new();
            let n = elems.len();
            let mut i: usize = 0;
            while i < n
                invariant
                    i <= n,
                    out@.len() == i,
                    forall|j: int| 0 <= j < i ==> jm(#[trigger] out@[j]) == jm(elems@[j]),
                decreases n - i,
            {
                out.push(clone_json(&elems[i]));
                i = i + 1;
            }
            proof {
                lemma_jm_seq(out@);
                assert(jm_seq(out@) =~= jm_seq(elems@));
            }
            JsonValue::Array(out)
        },
        JsonValue::Object(fields) => {
            proof {
                lemma_jm_fields(fields@);
            }
            let mut out: Vec<(String, JsonValue)> = Vec::new();
            let n = fields.len();
            let mut i: usize = 0;
            while i < n
                invariant
                    i <= n,
                    out@.len() == i,
                    forall|j: int|
                        0 <= j < i ==> (#[trigger] out@[j]).0@ == fields@[j].0@ && jm(out@[j].1)
                            == jm(fields@[j].1),
                decreases n - i,
            {
                let k = clone_string(&fields[i].0);
                let cv = clone_json(&fields[i].1);
                out.push((k, cv));
                i = i + 1;
            }
            proof {
                lemma_jm_fields(out@);
                assert(jm_fields(out@) =~= jm_fields(fields@));
            }
            JsonValue::Object(out)
        },
    }
}

impl Clone for JsonValue {
    /// A clone has the same model.
    fn clone(&self) -> (r: Self)
        ensures
            r@ == self@,
    {
        clone_json(self)
    }
}

impl vstd::std_specs::cmp::PartialEqSpecImpl for JsonValue {
    open spec fn obeys_eq_spec() -> bool {
        true
    }

    open spec fn eq_spec(&self, other: &JsonValue) -> bool {
        self@ == other@
    }
}

impl PartialEq for JsonValue {
    /// Two values are equal exactly when their models are.
    #[verifier::loop_isolation(false)]
    fn eq(&self, other: &JsonValue) -> (r: bool)
        decreases *self,
    {
        match (self, other) {
            (JsonValue::Null, JsonValue::Null) => true,
            (JsonValue::Bool(a), JsonValue::Bool(b)) => *a == *b,
            (JsonValue::Int(a), JsonValue::Int(b)) => *a == *b,
            (JsonValue::Uint(a), JsonValue::Uint(b)) => *a == *b,
            (JsonValue::Num(a), JsonValue::Num(b)) => *a == *b,
            (JsonValue::Str(a), JsonValue::Str(b)) => *a == *b,
            (JsonValue::Array(x), JsonValue::Array(y)) => {
                proof {
                    lemma_jm_seq(x@);
                    lemma_jm_seq(y@);
                }
                if x.len() != y.len() {
                    return false;
                }
                let n = x.len();
                let mut i: usize = 0;
                while i < n
                    invariant
                        i <= n,
                        forall|j: int| 0 <= j < i ==> jm(#[trigger] x@[j]) == jm(y@[j]),
                    decreases n - i,
                {
                    if !x[i].eq(&y[i]) {
                        proof {
                            assert(jm_seq(x@)[i as int] != jm_seq(y@)[i as int]);
                        }
                        return false;
                    }
                    i = i + 1;
                }
                proof {
                    assert(jm_seq(x@) =~= jm_seq(y@));
                }
                true
            },
            (JsonValue::Object(x), JsonValue::Object(y)) => {
                proof {
                    lemma_jm_fields(x@);
                    lemma_jm_fields(y@);
                }
                if x.len() != y.len() {
                    return false;
                }
                let n = x.len();
                let mut i: usize = 0;
                while i < n
                    invariant
                        i <= n,
                        forall|j: int|
                            0 <= j < i ==> (#[trigger] x@[j]).0@ == y@[j].0@ && jm(x@[j].1) == jm(
                                y@[j].1,
                            ),
                    decreases n - i,
                {
                    if !(x[i].0 == y[i].0) {
                        proof {
                            assert(jm_fields(x@)[i as int].0 != jm_fields(y@)[i as int].0);
                        }
                        return false;
                    }
                    if !x[i].1.eq(&y[i].1) {
                        proof {
                            assert(jm_fields(x@)[i as int].1 != jm_fields(y@)[i as int].1);
                        }
                        return false;
                    }
                    i = i + 1;
                }
                proof {
                    assert(jm_fields(x@) =~= jm_fields(y@));
                }
                true
            },
            _ => false,
        }
    }
}

} // verus!
