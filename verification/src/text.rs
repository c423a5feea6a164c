//! Character-level text utilities: conversions between `&str` and `Vec<char>`,
//! predicates on characters, trimming, searching, splitting, and decimal
//! number parsing and formatting, all specified over `Seq<char>`.

use vstd::prelude::*;
use vstd::slice::{slice_subrange, slice_to_vec};
use vstd::string::StrSliceExecFns;

verus! {

/// Whether `c` is an ASCII decimal digit.
pub open spec fn is_digit(c: char) -> bool {
    48 <= c as u32 <= 57
}

/// Numeric value of an ASCII digit.
pub open spec fn digit_val(c: char) -> int {
    c as u32 - 48
}

/// Whether every character of `s` is an ASCII decimal digit.
pub open spec fn all_digits(s: Seq<char>) -> bool {
    forall|i: int| 0 <= i < s.len() ==> is_digit(#[trigger] s[i])
}

/// Value of a sequence of ASCII digits read as a decimal numeral.
pub open spec fn digits_val(s: Seq<char>) -> int
    decreases s.len(),
{
    if s.len() == 0 {
        0
    } else {
        digits_val(s.drop_last()) * 10 + digit_val(s.last())
    }
}

/// The characters of `s`, in order.
pub fn chars_of(s: &str) -> (r: Vec<char>)
    ensures
        r@ == s@,
{
    let n = s.unicode_len();
    let mut r: Vec<char> = Vec::new();
    let mut i: usize = 0;
    while i < n
        invariant
            i <= n,
            n == s@.len(),
            r@ == s@.take(i as int),
        decreases n - i,
    {
        r.push(s.get_char(i));
        i = i + 1;
        assert(r@ =~= s@.take(i as int));
    }
    assert(s@.take(n as int) =~= s@);
    r
}

/// Relies on std's `String::push`: appends exactly the given character.
#[verifier::external_body]
fn push_char(s: &mut String, c: char)
    ensures
        final(s)@ == old(s)@.push(c),
{
    s.push(c);
}

/// A `String` holding exactly the characters of `v`.
pub fn string_of(v: &[char]) -> (r: String)
    ensures
        r@ == v@,
{
    let mut r = String::new();
    let mut i: usize = 0;
    while i < v.len()
        invariant
            i <= v@.len(),
            r@ == v@.take(i as int),
        decreases v@.len() - i,
    {
        push_char(&mut r, v[i]);
        i = i + 1;
        assert(r@ =~= v@.take(i as int));
    }
    assert(v@.take(v@.len() as int) =~= v@);
    r
}

/// Whether `p` is a prefix of `s`.
pub open spec fn starts_with(s: Seq<char>, p: Seq<char>) -> bool {
    p.len() <= s.len() && s.subrange(0, p.len() as int) == p
}

/// Whether `p` is a suffix of `s`.
pub open spec fn ends_with(s: Seq<char>, p: Seq<char>) -> bool {
    p.len() <= s.len() && s.subrange(s.len() - p.len(), s.len() as int) == p
}

/// Prefix test on character slices.
pub fn slice_starts_with(s: &[char], p: &[char]) -> (r: bool)
    ensures
        r == starts_with(s@, p@),
{
    if p.len() > s.len() {
        assert(!starts_with(s@, p@));
        return false;
    }
    let mut i: usize = 0;
    while i < p.len()
        invariant
            i <= p@.len() <= s@.len(),
            forall|j: int| 0 <= j < i ==> s@[j] == p@[j],
        decreases p@.len() - i,
    {
        if s[i] != p[i] {
            assert(s@.subrange(0, p@.len() as int)[i as int] != p@[i as int]);
            return false;
        }
        i = i + 1;
    }
    assert(s@.subrange(0, p@.len() as int) =~= p@);
    true
}

/// Suffix test on character slices.
pub fn slice_ends_with(s: &[char], p: &[char]) -> (r: bool)
    ensures
        r == ends_with(s@, p@),
{
    if p.len() > s.len() {
        assert(!ends_with(s@, p@));
        return false;
    }
    let off = s.len() - p.len();
    let mut i: usize = 0;
    while i < p.len()
        invariant
            i <= p@.len() <= s@.len(),
            s@.len() <= usize::MAX,
            off == s@.len() - p@.len(),
            forall|j: int| 0 <= j < i ==> s@[off + j] == p@[j],
        decreases p@.len() - i,
    {
        if s[off + i] != p[i] {
            assert(s@.subrange(s@.len() - p@.len(), s@.len() as int)[i as int] != p@[i as int]);
            return false;
        }
        i = i + 1;
    }
    assert(s@.subrange(s@.len() - p@.len(), s@.len() as int) =~= p@);
    true
}

/// What std's `char::is_whitespace` returns; a function of the character alone.
pub uninterp spec fn char_ws(c: char) -> bool;

/// Relies on std's `char::is_whitespace`: the Unicode `White_Space` property
/// of the character.
#[verifier::external_body]
pub fn char_is_space(c: char) -> (r: bool)
    ensures
        r == char_ws(c),
{
    c.is_whitespace()
}

/// `s` with leading whitespace removed.
pub open spec fn trim_start_spec(s: Seq<char>) -> Seq<char>
    decreases s.len(),
{
    if s.len() > 0 && char_ws(s[0]) {
        trim_start_spec(s.drop_first())
    } else {
        s
    }
}

/// `s` with trailing whitespace removed.
pub open spec fn trim_end_spec(s: Seq<char>) -> Seq<char>
    decreases s.len(),
{
    if s.len() > 0 && char_ws(s.last()) {
        trim_end_spec(s.drop_last())
    } else {
        s
    }
}

/// `s` with both leading and trailing whitespace removed.
pub open spec fn trim_spec(s: Seq<char>) -> Seq<char> {
    trim_end_spec(trim_start_spec(s))
}

proof fn lemma_trim_start_at(s: Seq<char>, k: int)
    requires
        0 <= k <= s.len(),
        forall|j: int| 0 <= j < k ==> char_ws(s[j]),
        k < s.len() ==> !char_ws(s[k]),
    ensures
        trim_start_spec(s) == s.skip(k),
    decreases k,
{
    if k == 0 {
        assert(s.skip(0) =~= s);
    } else {
        assert(char_ws(s[0]));
        lemma_trim_start_at(s.drop_first(), k - 1);
        assert(s.drop_first().skip(k - 1) =~= s.skip(k));
    }
}

proof fn lemma_trim_end_at(s: Seq<char>, k: int)
    requires
        0 <= k <= s.len(),
        forall|j: int| k <= j < s.len() ==> char_ws(s[j]),
        k > 0 ==> !char_ws(s[k - 1]),
    ensures
        trim_end_spec(s) == s.take(k),
    decreases s.len() - k,
{
    if k == s.len() {
        assert(s.take(k) =~= s);
        if s.len() > 0 {
            assert(!char_ws(s.last()));
        }
    } else {
        assert(char_ws(s.last()));
        lemma_trim_end_at(s.drop_last(), k);
        assert(s.drop_last().take(k) =~= s.take(k));
    }
}

/// The subslice of `v` with surrounding whitespace removed.
#[verifier::rlimit(100)]
pub fn trim_slice(v: &[char]) -> (r: &[char])
    ensures
        r@ == trim_spec(v@),
{
    let n = v.len();
    let mut a: usize = 0;
    let mut go = a < n && char_is_space(v[a]);
    while go
        invariant
            a <= n,
            n == v@.len(),
            go == (a < n && char_ws(v@[a as int])),
            forall|j: int| 0 <= j < a ==> char_ws(v@[j]),
        decreases n - a,
    {
        a = a + 1;
        go = a < n && char_is_space(v[a]);
    }
    proof {
        lemma_trim_start_at(v@, a as int);
    }
    let mut b: usize = n;
    let mut back = b > a && char_is_space(v[b - 1]);
    while back
        invariant
            a <= b <= n,
            n == v@.len(),
            back == (b > a && char_ws(v@[b - 1])),
            forall|j: int| b <= j < n ==> char_ws(v@[j]),
        decreases b,
    {
        b = b - 1;
        back = b > a && char_is_space(v[b - 1]);
    }
    proof {
        lemma_trim_end_at(v@.skip(a as int), b - a);
        assert(v@.skip(a as int).take(b - a) =~= v@.subrange(a as int, b as int));
    }
    slice_subrange(v, a, b)
}

/// Index of the first occurrence of `c` in `s`.
pub open spec fn find_char(s: Seq<char>, c: char) -> Option<int>
    decreases s.len(),
{
    if s.len() == 0 {
        None
    } else if s[0] == c {
        Some(0int)
    } else {
        match find_char(s.drop_first(), c) {
            Some(i) => Some(i + 1),
            None => None,
        }
    }
}

pub proof fn lemma_find_char_at(s: Seq<char>, c: char, i: int)
    requires
        0 <= i < s.len(),
        s[i] == c,
        forall|j: int| 0 <= j < i ==> s[j] != c,
    ensures
        find_char(s, c) == Some(i),
    decreases i,
{
    if i > 0 {
        let t = s.drop_first();
        assert forall|j: int| 0 <= j < i - 1 implies t[j] != c by {
            assert(t[j] == s[j + 1]);
        }
        lemma_find_char_at(t, c, i - 1);
    }
}

pub proof fn lemma_find_char_bounds(s: Seq<char>, c: char)
    ensures
        find_char(s, c) matches Some(i) ==> 0 <= i < s.len() && s[i] == c,
    decreases s.len(),
{
    if s.len() > 0 && s[0] != c {
        lemma_find_char_bounds(s.drop_first(), c);
    }
}

pub proof fn lemma_find_char_none(s: Seq<char>, c: char)
    requires
        forall|j: int| 0 <= j < s.len() ==> s[j] != c,
    ensures
        find_char(s, c) is None,
    decreases s.len(),
{
    if s.len() > 0 {
        let t = s.drop_first();
        assert forall|j: int| 0 <= j < t.len() implies t[j] != c by {
            assert(t[j] == s[j + 1]);
        }
        lemma_find_char_none(t, c);
    }
}

/// Index of the first position of `c` in `v`, if any.
pub fn find_char_slice(v: &[char], c: char) -> (r: Option<usize>)
    ensures
        match r {
            Some(i) => find_char(v@, c) == Some(i as int),
            None => find_char(v@, c) is None,
        },
{
    let mut i: usize = 0;
    while i < v.len()
        invariant
            i <= v@.len(),
            forall|j: int| 0 <= j < i ==> v@[j] != c,
        decreases v@.len() - i,
    {
        if v[i] == c {
            proof {
                lemma_find_char_at(v@, c, i as int);
            }
            return Some(i);
        }
        i = i + 1;
    }
    proof {
        lemma_find_char_none(v@, c);
    }
    None
}

/// Index of the first occurrence of `p` as a contiguous part of `s`.
pub open spec fn find_sub(s: Seq<char>, p: Seq<char>) -> Option<int>
    decreases s.len(),
{
    if starts_with(s, p) {
        Some(0int)
    } else if s.len() == 0 {
        None
    } else {
        match find_sub(s.drop_first(), p) {
            Some(i) => Some(i + 1),
            None => None,
        }
    }
}

pub proof fn lemma_find_sub_bounds(s: Seq<char>, p: Seq<char>)
    ensures
        find_sub(s, p) matches Some(i) ==> 0 <= i && i + p.len() <= s.len() && s.subrange(
            i,
            i + p.len() as int,
        ) == p,
    decreases s.len(),
{
    if !starts_with(s, p) && s.len() > 0 {
        let t = s.drop_first();
        lemma_find_sub_bounds(t, p);
        match find_sub(t, p) {
            Some(i) => {
                assert(t.subrange(i, i + p.len() as int) =~= s.subrange(
                    i + 1,
                    i + 1 + p.len() as int,
                ));
            },
            None => {},
        }
    }
}

pub proof fn lemma_find_sub_at(s: Seq<char>, p: Seq<char>, i: int)
    requires
        0 <= i,
        i + p.len() <= s.len(),
        s.subrange(i, i + p.len() as int) == p,
        forall|j: int| 0 <= j < i ==> #[trigger] s.subrange(j, j + p.len() as int) != p,
    ensures
        find_sub(s, p) == Some(i),
    decreases i,
{
    if i == 0 {
        assert(starts_with(s, p));
    } else {
        assert(s.subrange(0, 0 + p.len() as int) != p);
        assert(!starts_with(s, p));
        let t = s.drop_first();
        assert forall|j: int| 0 <= j < i - 1 implies #[trigger] t.subrange(j, j + p.len() as int)
            != p by {
            assert(t.subrange(j, j + p.len() as int) =~= s.subrange(j + 1, j + 1 + p.len() as int));
        }
        assert(t.subrange(i - 1, i - 1 + p.len() as int) =~= s.subrange(i, i + p.len() as int));
        lemma_find_sub_at(t, p, i - 1);
    }
}

pub proof fn lemma_find_sub_none(s: Seq<char>, p: Seq<char>)
    requires
        forall|j: int|
            0 <= j && j + p.len() <= s.len() ==> #[trigger] s.subrange(j, j + p.len() as int) != p,
    ensures
        find_sub(s, p) is None,
    decreases s.len(),
{
    if p.len() <= s.len() {
        assert(s.subrange(0, 0 + p.len() as int) != p);
    }
    assert(!starts_with(s, p));
    if s.len() > 0 {
        let t = s.drop_first();
        assert forall|j: int| 0 <= j && j + p.len() <= t.len() implies #[trigger] t.subrange(
            j,
            j + p.len() as int,
        ) != p by {
            assert(t.subrange(j, j + p.len() as int) =~= s.subrange(j + 1, j + 1 + p.len() as int));
        }
        lemma_find_sub_none(t, p);
    }
}

/// Index of the first position where `p` occurs in `v`, if any.
pub fn find_sub_slice(v: &[char], p: &[char]) -> (r: Option<usize>)
    requires
        p@.len() > 0,
    ensures
        match r {
            Some(i) => find_sub(v@, p@) == Some(i as int),
            None => find_sub(v@, p@) is None,
        },
{
    if p.len() > v.len() {
        proof {
            lemma_find_sub_none(v@, p@);
        }
        return None;
    }
    let m = v.len() - p.len();
    let mut i: usize = 0;
    while i <= m
        invariant
            i <= m + 1,
            m == v@.len() - p@.len(),
            0 < p@.len() <= v@.len(),
            v@.len() <= usize::MAX,
            forall|j: int| 0 <= j < i ==> #[trigger] v@.subrange(j, j + p@.len() as int) != p@,
        decreases m + 1 - i,
    {
        let here = slice_subrange(v, i, i + p.len());
        if slice_eq(here, p) {
            proof {
                lemma_find_sub_at(v@, p@, i as int);
            }
            return Some(i);
        }
        i = i + 1;
    }
    proof {
        lemma_find_sub_none(v@, p@);
    }
    None
}

/// Equality of two character slices.
pub fn slice_eq(a: &[char], b: &[char]) -> (r: bool)
    ensures
        r == (a@ == b@),
{
    if a.len() != b.len() {
        return false;
    }
    let mut i: usize = 0;
    while i < a.len()
        invariant
            i <= a@.len(),
            a@.len() == b@.len(),
            forall|j: int| 0 <= j < i ==> a@[j] == b@[j],
        decreases a@.len() - i,
    {
        if a[i] != b[i] {
            return false;
        }
        i = i + 1;
    }
    assert(a@ =~= b@);
    true
}

/// The views of a sequence of character vectors.
pub open spec fn views_of(q: Seq<Vec<char>>) -> Seq<Seq<char>> {
    Seq::new(q.len(), |i: int| q[i]@)
}

/// The pieces of `s` between non-overlapping occurrences of `p`, left to
/// right, as std's `str::split` yields them for a non-empty pattern.
pub open spec fn split_sub(s: Seq<char>, p: Seq<char>) -> Seq<Seq<char>>
    decreases s.len(),
    when p.len() > 0
    via split_sub_dec
{
    match find_sub(s, p) {
        None => seq![s],
        Some(i) => seq![s.subrange(0, i)] + split_sub(s.subrange(i + p.len(), s.len() as int), p),
    }
}

#[via_fn]
proof fn split_sub_dec(s: Seq<char>, p: Seq<char>) {
    lemma_find_sub_bounds(s, p);
}

/// The pieces of `v` around occurrences of `p`.
pub fn split_sub_slice(v: &[char], p: &[char]) -> (r: Vec<Vec<char>>)
    requires
        p@.len() > 0,
    ensures
        views_of(r@) == split_sub(v@, p@),
    decreases v@.len(),
{
    proof {
        lemma_find_sub_bounds(v@, p@);
    }
    match find_sub_slice(v, p) {
        None => {
            let mut r: Vec<Vec<char>> = Vec::new();
            r.push(slice_to_vec(v));
            proof {
                assert(views_of(r@) =~= split_sub(v@, p@));
            }
            r
        },
        Some(i) => {
            let vlen = v.len();
            let head = slice_to_vec(slice_subrange(v, 0, i));
            let tail = slice_subrange(v, i + p.len(), vlen);
            let rest = split_sub_slice(tail, p);
            let mut r: Vec<Vec<char>> = Vec::new();
            r.push(head);
            let mut k: usize = 0;
            let n = rest.len();
            while k < n
                invariant
                    k <= n,
                    n == rest@.len(),
                    r@.len() == k + 1,
                    r@[0]@ == v@.subrange(0, i as int),
                    forall|j: int| 0 <= j < k ==> (#[trigger] r@[j + 1])@ == rest@[j]@,
                decreases n - k,
            {
                let piece = slice_to_vec(rest[k].as_slice());
                r.push(piece);
                k = k + 1;
            }
            proof {
                let full = seq![v@.subrange(0, i as int)] + views_of(rest@);
                assert forall|idx: int| 0 <= idx < views_of(r@).len() implies views_of(r@)[idx]
                    == full[idx] by {
                    if idx > 0 {
                        assert(r@[(idx - 1) + 1]@ == rest@[idx - 1]@);
                    }
                }
                assert(views_of(r@) =~= full);
                assert(views_of(r@) =~= split_sub(v@, p@));
            }
            r
        },
    }
}


/// Equality of two strings, by view.
pub fn str_eq(a: &str, b: &str) -> (r: bool)
    ensures
        r == (a@ == b@),
{
    let va = chars_of(a);
    slice_eq_str(va.as_slice(), b)
}

/// Equality of a character slice against a `&str`.
pub fn slice_eq_str(s: &[char], t: &str) -> (r: bool)
    ensures
        r == (s@ == t@),
{
    let tc = chars_of(t);
    if s.len() != tc.len() {
        return false;
    }
    let mut i: usize = 0;
    while i < s.len()
        invariant
            i <= s@.len(),
            s@.len() == tc@.len(),
            tc@ == t@,
            forall|j: int| 0 <= j < i ==> s@[j] == tc@[j],
        decreases s@.len() - i,
    {
        if s[i] != tc[i] {
            return false;
        }
        i = i + 1;
    }
    assert(s@ =~= t@);
    true
}

} // verus!

// Re-opened for numeric parsing and formatting, repeated stripping, joining,
// and replacement.
verus! {

/// `s` with every trailing repetition of `p` removed, as std's
/// `str::trim_end_matches` leaves it for a non-empty pattern.
pub open spec fn strip_end_reps(s: Seq<char>, p: Seq<char>) -> Seq<char>
    decreases s.len(),
    when p.len() > 0
{
    if ends_with(s, p) {
        strip_end_reps(s.take(s.len() - p.len()), p)
    } else {
        s
    }
}

/// `s` with every leading repetition of `p` removed.
pub open spec fn strip_start_reps(s: Seq<char>, p: Seq<char>) -> Seq<char>
    decreases s.len(),
    when p.len() > 0
{
    if starts_with(s, p) && s.len() > 0 {
        strip_start_reps(s.skip(p.len() as int), p)
    } else {
        s
    }
}

/// The longest prefix of `v` without trailing repetitions of `p`.
pub fn strip_end_reps_slice<'a>(v: &'a [char], p: &[char]) -> (r: &'a [char])
    requires
        p@.len() > 0,
    ensures
        r@ == strip_end_reps(v@, p@),
    decreases v@.len(),
{
    if slice_ends_with(v, p) {
        let w = slice_subrange(v, 0, v.len() - p.len());
        proof {
            assert(w@ =~= v@.take(v@.len() - p@.len()));
        }
        strip_end_reps_slice(w, p)
    } else {
        v
    }
}

/// The suffix of `v` without leading repetitions of `p`.
pub fn strip_start_reps_slice<'a>(v: &'a [char], p: &[char]) -> (r: &'a [char])
    requires
        p@.len() > 0,
    ensures
        r@ == strip_start_reps(v@, p@),
    decreases v@.len(),
{
    if v.len() > 0 && slice_starts_with(v, p) {
        let w = slice_subrange(v, p.len(), v.len());
        proof {
            assert(w@ =~= v@.skip(p@.len() as int));
        }
        strip_start_reps_slice(w, p)
    } else {
        v
    }
}

pub proof fn lemma_digits_val_nonneg(s: Seq<char>)
    requires
        all_digits(s),
    ensures
        digits_val(s) >= 0,
    decreases s.len(),
{
    if s.len() > 0 {
        assert(all_digits(s.drop_last()));
        lemma_digits_val_nonneg(s.drop_last());
    }
}

proof fn lemma_digits_take_step(s: Seq<char>, k: int)
    requires
        0 <= k < s.len(),
    ensures
        digits_val(s.take(k + 1)) == digits_val(s.take(k)) * 10 + digit_val(s[k]),
{
    assert(s.take(k + 1).drop_last() =~= s.take(k));
    assert(s.take(k + 1).last() == s[k]);
}

proof fn lemma_digits_monotone(s: Seq<char>, k: int)
    requires
        all_digits(s),
        0 <= k <= s.len(),
    ensures
        digits_val(s.take(k)) <= digits_val(s),
    decreases s.len() - k,
{
    if k == s.len() {
        assert(s.take(k) =~= s);
    } else {
        lemma_digits_take_step(s, k);
        assert(all_digits(s.take(k)));
        lemma_digits_val_nonneg(s.take(k));
        lemma_digits_monotone(s, k + 1);
    }
}

/// A run of ASCII digits read as a decimal number, when non-empty, all
/// digits, and within `max`.
pub open spec fn parse_digits(s: Seq<char>, max: int) -> Option<int> {
    if s.len() > 0 && all_digits(s) && digits_val(s) <= max {
        Some(digits_val(s))
    } else {
        None
    }
}

/// An unsigned decimal numeral with an optional leading `+`, as std parses
/// unsigned integers.
pub open spec fn parse_unsigned(s: Seq<char>, max: int) -> Option<int> {
    if s.len() > 0 && s[0] == '+' {
        parse_digits(s.drop_first(), max)
    } else {
        parse_digits(s, max)
    }
}

/// A signed decimal numeral with an optional leading `+` or `-`, as std
/// parses signed integers.
pub open spec fn parse_signed(s: Seq<char>, min: int, max: int) -> Option<int> {
    if s.len() > 0 && s[0] == '-' {
        let body = s.drop_first();
        if body.len() > 0 && all_digits(body) && -digits_val(body) >= min {
            Some(-digits_val(body))
        } else {
            None
        }
    } else {
        parse_unsigned(s, max)
    }
}

/// Decimal value of a digit run, refused above `u64::MAX`.
pub fn parse_digits_u64(v: &[char]) -> (r: Option<u64>)
    ensures
        match parse_digits(v@, u64::MAX as int) {
            Some(n) => r matches Some(m) && m == n,
            None => r is None,
        },
{
    if v.len() == 0 {
        return None;
    }
    let mut acc: u64 = 0;
    let mut i: usize = 0;
    while i < v.len()
        invariant
            i <= v@.len(),
            all_digits(v@.take(i as int)),
            acc == digits_val(v@.take(i as int)),
        decreases v@.len() - i,
    {
        let c = v[i];
        let cu = c as u32;
        if !(48 <= cu && cu <= 57) {
            assert(!all_digits(v@));
            return None;
        }
        let d: u64 = (cu - 48) as u64;
        proof {
            lemma_digits_take_step(v@, i as int);
        }
        let shifted = match acc.checked_mul(10) {
            Some(x) => x,
            None => {
                proof {
                    lemma_digits_val_nonneg(v@.take(i as int));
                    if all_digits(v@) {
                        lemma_digits_monotone(v@, i + 1);
                    }
                }
                return None;
            },
        };
        acc = match shifted.checked_add(d) {
            Some(x) => x,
            None => {
                proof {
                    lemma_digits_val_nonneg(v@.take(i as int));
                    if all_digits(v@) {
                        lemma_digits_monotone(v@, i + 1);
                    }
                }
                return None;
            },
        };
        i = i + 1;
    }
    proof {
        assert(v@.take(v@.len() as int) =~= v@);
    }
    Some(acc)
}

/// Decimal value of a digit run, refused above `u128::MAX`.
pub fn parse_digits_u128(v: &[char]) -> (r: Option<u128>)
    ensures
        match parse_digits(v@, u128::MAX as int) {
            Some(n) => r matches Some(m) && m == n,
            None => r is None,
        },
{
    if v.len() == 0 {
        return None;
    }
    let mut acc: u128 = 0;
    let mut i: usize = 0;
    while i < v.len()
        invariant
            i <= v@.len(),
            all_digits(v@.take(i as int)),
            acc == digits_val(v@.take(i as int)),
        decreases v@.len() - i,
    {
        let c = v[i];
        let cu = c as u32;
        if !(48 <= cu && cu <= 57) {
            assert(!all_digits(v@));
            return None;
        }
        let d: u128 = (cu - 48) as u128;
        proof {
            lemma_digits_take_step(v@, i as int);
        }
        let shifted = match acc.checked_mul(10) {
            Some(x) => x,
            None => {
                proof {
                    lemma_digits_val_nonneg(v@.take(i as int));
                    if all_digits(v@) {
                        lemma_digits_monotone(v@, i + 1);
                    }
                }
                return None;
            },
        };
        acc = match shifted.checked_add(d) {
            Some(x) => x,
            None => {
                proof {
                    lemma_digits_val_nonneg(v@.take(i as int));
                    if all_digits(v@) {
                        lemma_digits_monotone(v@, i + 1);
                    }
                }
                return None;
            },
        };
        i = i + 1;
    }
    proof {
        assert(v@.take(v@.len() as int) =~= v@);
    }
    Some(acc)
}

/// Parse as std parses a `u64`: optional `+`, then decimal digits.
pub fn parse_u64_chars(v: &[char]) -> (r: Option<u64>)
    ensures
        match parse_unsigned(v@, u64::MAX as int) {
            Some(n) => r matches Some(m) && m == n,
            None => r is None,
        },
{
    if v.len() > 0 && v[0] == '+' {
        let w = slice_subrange(v, 1, v.len());
        proof {
            assert(w@ =~= v@.drop_first());
        }
        parse_digits_u64(w)
    } else {
        parse_digits_u64(v)
    }
}

/// Parse as std parses a `u32`.
pub fn parse_u32_chars(v: &[char]) -> (r: Option<u32>)
    ensures
        match parse_unsigned(v@, u32::MAX as int) {
            Some(n) => r matches Some(m) && m == n,
            None => r is None,
        },
{
    match parse_u64_chars(v) {
        Some(n) => if n <= u32::MAX as u64 {
            Some(n as u32)
        } else {
            None
        },
        None => None,
    }
}

/// Parse as std parses a `u128`.
pub fn parse_u128_chars(v: &[char]) -> (r: Option<u128>)
    ensures
        match parse_unsigned(v@, u128::MAX as int) {
            Some(n) => r matches Some(m) && m == n,
            None => r is None,
        },
{
    if v.len() > 0 && v[0] == '+' {
        let w = slice_subrange(v, 1, v.len());
        proof {
            assert(w@ =~= v@.drop_first());
        }
        parse_digits_u128(w)
    } else {
        parse_digits_u128(v)
    }
}

/// Parse as std parses an `i64`: optional sign, then decimal digits.
pub fn parse_i64_chars(v: &[char]) -> (r: Option<i64>)
    ensures
        match parse_signed(v@, i64::MIN as int, i64::MAX as int) {
            Some(n) => r matches Some(m) && m == n,
            None => r is None,
        },
{
    if v.len() > 0 && v[0] == '-' {
        let w = slice_subrange(v, 1, v.len());
        proof {
            assert(w@ =~= v@.drop_first());
        }
        match parse_digits_u64(w) {
            Some(mag) => if mag <= 9223372036854775807u64 {
                Some((-(mag as i64)) as i64)
            } else if mag == 9223372036854775808u64 {
                Some(i64::MIN)
            } else {
                None
            },
            None => {
                proof {
                    if w@.len() > 0 && all_digits(w@) {
                        lemma_digits_val_nonneg(w@);
                    }
                }
                None
            },
        }
    } else {
        match parse_u64_chars(v) {
            Some(n) => if n <= i64::MAX as u64 {
                Some(n as i64)
            } else {
                None
            },
            None => None,
        }
    }
}

/// Parse as std parses an `i32`.
pub fn parse_i32_chars(v: &[char]) -> (r: Option<i32>)
    ensures
        match parse_signed(v@, i32::MIN as int, i32::MAX as int) {
            Some(n) => r matches Some(m) && m == n,
            None => r is None,
        },
{
    let r64 = parse_i64_chars(v);
    proof {
        if v@.len() > 0 && v@[0] == '-' {
            let body = v@.drop_first();
            if body.len() > 0 && all_digits(body) {
                lemma_digits_val_nonneg(body);
            }
            assert(parse_signed(v@, i64::MIN as int, i64::MAX as int) == (
            if body.len() > 0 && all_digits(body) && -digits_val(body) >= i64::MIN as int {
                Some(-digits_val(body))
            } else {
                None::<int>
            }));
            assert(parse_signed(v@, i32::MIN as int, i32::MAX as int) == (
            if body.len() > 0 && all_digits(body) && -digits_val(body) >= i32::MIN as int {
                Some(-digits_val(body))
            } else {
                None::<int>
            }));
        } else {
            let w = if v@.len() > 0 && v@[0] == '+' {
                v@.drop_first()
            } else {
                v@
            };
            if w.len() > 0 && all_digits(w) {
                lemma_digits_val_nonneg(w);
            }
            assert(parse_signed(v@, i64::MIN as int, i64::MAX as int) == parse_digits(
                w,
                i64::MAX as int,
            ));
            assert(parse_signed(v@, i32::MIN as int, i32::MAX as int) == parse_digits(
                w,
                i32::MAX as int,
            ));
        }
    }
    match r64 {
        Some(n) => if i32::MIN as i64 <= n && n <= i32::MAX as i64 {
            Some(n as i32)
        } else {
            None
        },
        None => None,
    }
}


/// How an integer parse fails, mirroring std's error kinds.
#[derive(Debug, Clone, Copy, PartialEq, Eq, Structural)]
pub enum IntParseKind {
    Empty,
    Invalid,
    TooLarge,
    TooSmall,
}

/// The first failure a left-to-right scan of a digit run meets: a non-digit
/// character, or an accumulated value past `cap`.
pub open spec fn scan_kind(body: Seq<char>, i: int, acc: int, cap: int, neg: bool) -> IntParseKind
    decreases body.len() - i,
    when 0 <= i <= body.len()
{
    if i >= body.len() {
        IntParseKind::Empty
    } else if !is_digit(body[i]) {
        IntParseKind::Invalid
    } else if acc * 10 + digit_val(body[i]) > cap {
        if neg {
            IntParseKind::TooSmall
        } else {
            IntParseKind::TooLarge
        }
    } else {
        scan_kind(body, i + 1, acc * 10 + digit_val(body[i]), cap, neg)
    }
}

/// Digit-run parse against a cap, reporting how it failed, as std's integer
/// parser would at the same position.
pub fn parse_digits_max(v: &[char], cap: u64, neg: bool) -> (r: Result<u64, IntParseKind>)
    ensures
        match parse_digits(v@, cap as int) {
            Some(n) => r matches Ok(m) && m == n,
            None => r matches Err(k) && k == (if v@.len() == 0 {
                IntParseKind::Invalid
            } else {
                scan_kind(v@, 0, 0, cap as int, neg)
            }),
        },
{
    if v.len() == 0 {
        return Err(IntParseKind::Invalid);
    }
    let mut acc: u64 = 0;
    let mut i: usize = 0;
    while i < v.len()
        invariant
            i <= v@.len(),
            0 < v@.len() <= usize::MAX,
            all_digits(v@.take(i as int)),
            acc == digits_val(v@.take(i as int)),
            acc <= cap,
            scan_kind(v@, 0, 0, cap as int, neg) == scan_kind(
                v@,
                i as int,
                acc as int,
                cap as int,
                neg,
            ),
        decreases v@.len() - i,
    {
        let c = v[i];
        let cu = c as u32;
        if !(48 <= cu && cu <= 57) {
            assert(!all_digits(v@));
            return Err(IntParseKind::Invalid);
        }
        let d: u64 = (cu - 48) as u64;
        proof {
            lemma_digits_take_step(v@, i as int);
            lemma_digits_val_nonneg(v@.take(i as int));
        }
        let over = match acc.checked_mul(10) {
            Some(x) => match x.checked_add(d) {
                Some(y) => if y > cap {
                    true
                } else {
                    acc = y;
                    false
                },
                None => true,
            },
            None => true,
        };
        if over {
            proof {
                if all_digits(v@) {
                    lemma_digits_monotone(v@, i + 1);
                }
            }
            if neg {
                return Err(IntParseKind::TooSmall);
            } else {
                return Err(IntParseKind::TooLarge);
            }
        }
        i = i + 1;
    }
    proof {
        assert(v@.take(v@.len() as int) =~= v@);
    }
    Ok(acc)
}

/// Parse failure classification for an unsigned numeral, as std reports it:
/// empty input, an optional `+` sign, then the first scan failure.
pub open spec fn uint_parse_kind(s: Seq<char>, cap: int) -> IntParseKind {
    if s.len() == 0 {
        IntParseKind::Empty
    } else {
        let body = if s[0] == '+' {
            s.drop_first()
        } else {
            s
        };
        if body.len() == 0 {
            IntParseKind::Invalid
        } else {
            scan_kind(body, 0, 0, cap, false)
        }
    }
}

/// Parse failure classification for a signed numeral.
pub open spec fn int_parse_kind(s: Seq<char>, min: int, max: int) -> IntParseKind {
    if s.len() == 0 {
        IntParseKind::Empty
    } else if s[0] == '-' {
        let body = s.drop_first();
        if body.len() == 0 {
            IntParseKind::Invalid
        } else {
            scan_kind(body, 0, 0, -min, true)
        }
    } else {
        uint_parse_kind(s, max)
    }
}

/// Parse as std parses a `u64`, reporting the failure kind.
pub fn parse_u64_res(v: &[char]) -> (r: Result<u64, IntParseKind>)
    ensures
        match parse_unsigned(v@, u64::MAX as int) {
            Some(n) => r matches Ok(m) && m == n,
            None => r matches Err(k) && k == uint_parse_kind(v@, u64::MAX as int),
        },
{
    parse_unsigned_res_cap(v, u64::MAX)
}

/// Parse as std parses a `u32`, reporting the failure kind.
pub fn parse_u32_res(v: &[char]) -> (r: Result<u32, IntParseKind>)
    ensures
        match parse_unsigned(v@, u32::MAX as int) {
            Some(n) => r matches Ok(m) && m == n,
            None => r matches Err(k) && k == uint_parse_kind(v@, u32::MAX as int),
        },
{
    match parse_unsigned_res_cap(v, 4294967295u64) {
        Ok(n) => Ok(n as u32),
        Err(k) => Err(k),
    }
}

/// Unsigned parse against an arbitrary cap.
fn parse_unsigned_res_cap(v: &[char], cap: u64) -> (r: Result<u64, IntParseKind>)
    ensures
        match parse_unsigned(v@, cap as int) {
            Some(n) => r matches Ok(m) && m == n,
            None => r matches Err(k) && k == uint_parse_kind(v@, cap as int),
        },
{
    if v.len() == 0 {
        return Err(IntParseKind::Empty);
    }
    if v[0] == '+' {
        let w = slice_subrange(v, 1, v.len());
        proof {
            assert(w@ =~= v@.drop_first());
        }
        parse_digits_max(w, cap, false)
    } else {
        parse_digits_max(v, cap, false)
    }
}

/// Parse as std parses an `i64`, reporting the failure kind.
pub fn parse_i64_res(v: &[char]) -> (r: Result<i64, IntParseKind>)
    ensures
        match parse_signed(v@, i64::MIN as int, i64::MAX as int) {
            Some(n) => r matches Ok(m) && m == n,
            None => r matches Err(k) && k == int_parse_kind(
                v@,
                i64::MIN as int,
                i64::MAX as int,
            ),
        },
{
    if v.len() > 0 && v[0] == '-' {
        let w = slice_subrange(v, 1, v.len());
        proof {
            assert(w@ =~= v@.drop_first());
        }
        match parse_digits_max(w, 9223372036854775808u64, true) {
            Ok(mag) => {
                proof {
                    if w@.len() > 0 && all_digits(w@) {
                        lemma_digits_val_nonneg(w@);
                    }
                }
                if mag == 9223372036854775808u64 {
                    Ok(i64::MIN)
                } else {
                    Ok((-(mag as i64)) as i64)
                }
            },
            Err(k) => Err(k),
        }
    } else {
        match parse_unsigned_res_cap(v, 9223372036854775807u64) {
            Ok(n) => Ok(n as i64),
            Err(k) => Err(k),
        }
    }
}

/// Parse as std parses an `i32`, reporting the failure kind.
pub fn parse_i32_res(v: &[char]) -> (r: Result<i32, IntParseKind>)
    ensures
        match parse_signed(v@, i32::MIN as int, i32::MAX as int) {
            Some(n) => r matches Ok(m) && m == n,
            None => r matches Err(k) && k == int_parse_kind(
                v@,
                i32::MIN as int,
                i32::MAX as int,
            ),
        },
{
    if v.len() > 0 && v[0] == '-' {
        let w = slice_subrange(v, 1, v.len());
        proof {
            assert(w@ =~= v@.drop_first());
        }
        match parse_digits_max(w, 2147483648u64, true) {
            Ok(mag) => {
                proof {
                    if w@.len() > 0 && all_digits(w@) {
                        lemma_digits_val_nonneg(w@);
                    }
                }
                if mag == 2147483648u64 {
                    Ok(i32::MIN)
                } else {
                    Ok((-(mag as i32)) as i32)
                }
            },
            Err(k) => Err(k),
        }
    } else {
        match parse_unsigned_res_cap(v, 2147483647u64) {
            Ok(n) => Ok(n as i32),
            Err(k) => Err(k),
        }
    }
}

/// Digit-run parse against `u128::MAX`, reporting the failure kind.
fn parse_digits_u128_kind(v: &[char]) -> (r: Result<u128, IntParseKind>)
    ensures
        match parse_digits(v@, u128::MAX as int) {
            Some(n) => r matches Ok(m) && m == n,
            None => r matches Err(k) && k == (if v@.len() == 0 {
                IntParseKind::Invalid
            } else {
                scan_kind(v@, 0, 0, u128::MAX as int, false)
            }),
        },
{
    if v.len() == 0 {
        return Err(IntParseKind::Invalid);
    }
    let mut acc: u128 = 0;
    let mut i: usize = 0;
    while i < v.len()
        invariant
            i <= v@.len(),
            0 < v@.len() <= usize::MAX,
            all_digits(v@.take(i as int)),
            acc == digits_val(v@.take(i as int)),
            scan_kind(v@, 0, 0, u128::MAX as int, false) == scan_kind(
                v@,
                i as int,
                acc as int,
                u128::MAX as int,
                false,
            ),
        decreases v@.len() - i,
    {
        let c = v[i];
        let cu = c as u32;
        if !(48 <= cu && cu <= 57) {
            assert(!all_digits(v@));
            return Err(IntParseKind::Invalid);
        }
        let d: u128 = (cu - 48) as u128;
        proof {
            lemma_digits_take_step(v@, i as int);
            lemma_digits_val_nonneg(v@.take(i as int));
        }
        let over = match acc.checked_mul(10) {
            Some(x) => match x.checked_add(d) {
                Some(y) => {
                    acc = y;
                    false
                },
                None => true,
            },
            None => true,
        };
        if over {
            proof {
                if all_digits(v@) {
                    lemma_digits_monotone(v@, i + 1);
                }
            }
            return Err(IntParseKind::TooLarge);
        }
        i = i + 1;
    }
    proof {
        assert(v@.take(v@.len() as int) =~= v@);
    }
    Ok(acc)
}

/// Parse as std parses a `u128`, reporting the failure kind.
pub fn parse_u128_res(v: &[char]) -> (r: Result<u128, IntParseKind>)
    ensures
        match parse_unsigned(v@, u128::MAX as int) {
            Some(n) => r matches Ok(m) && m == n,
            None => r matches Err(k) && k == uint_parse_kind(v@, u128::MAX as int),
        },
{
    if v.len() == 0 {
        return Err(IntParseKind::Empty);
    }
    if v[0] == '+' {
        let w = slice_subrange(v, 1, v.len());
        proof {
            assert(w@ =~= v@.drop_first());
        }
        parse_digits_u128_kind(w)
    } else {
        parse_digits_u128_kind(v)
    }
}

/// The message std attaches to each integer parse failure.
pub open spec fn int_kind_msg(k: IntParseKind) -> Seq<char> {
    match k {
        IntParseKind::Empty => "cannot parse integer from empty string"@,
        IntParseKind::Invalid => "invalid digit found in string"@,
        IntParseKind::TooLarge => "number too large to fit in target type"@,
        IntParseKind::TooSmall => "number too small to fit in target type"@,
    }
}

/// The message text for an integer parse failure kind.
pub fn int_kind_msg_exec(k: IntParseKind) -> (r: String)
    ensures
        r@ == int_kind_msg(k),
{
    match k {
        IntParseKind::Empty => string_of(chars_of("cannot parse integer from empty string").as_slice()),
        IntParseKind::Invalid => string_of(chars_of("invalid digit found in string").as_slice()),
        IntParseKind::TooLarge => string_of(
            chars_of("number too large to fit in target type").as_slice(),
        ),
        IntParseKind::TooSmall => string_of(
            chars_of("number too small to fit in target type").as_slice(),
        ),
    }
}

/// The character for one decimal digit.
pub open spec fn digit_char(d: int) -> char {
    if d == 0 {
        '0'
    } else if d == 1 {
        '1'
    } else if d == 2 {
        '2'
    } else if d == 3 {
        '3'
    } else if d == 4 {
        '4'
    } else if d == 5 {
        '5'
    } else if d == 6 {
        '6'
    } else if d == 7 {
        '7'
    } else if d == 8 {
        '8'
    } else {
        '9'
    }
}

/// The decimal numeral for a non-negative number.
pub open spec fn dec_str(n: int) -> Seq<char>
    decreases n,
{
    if n < 10 {
        seq![digit_char(n)]
    } else {
        dec_str(n / 10).push(digit_char(n % 10))
    }
}

fn digit_char_exec(d: u64) -> (r: char)
    requires
        d < 10,
    ensures
        r == digit_char(d as int),
{
    if d == 0 {
        '0'
    } else if d == 1 {
        '1'
    } else if d == 2 {
        '2'
    } else if d == 3 {
        '3'
    } else if d == 4 {
        '4'
    } else if d == 5 {
        '5'
    } else if d == 6 {
        '6'
    } else if d == 7 {
        '7'
    } else if d == 8 {
        '8'
    } else {
        '9'
    }
}

/// The decimal digits of `n`.
pub fn u64_chars(n: u64) -> (r: Vec<char>)
    ensures
        r@ == dec_str(n as int),
    decreases n,
{
    if n < 10 {
        let mut r: Vec<char> = Vec::new();
        r.push(digit_char_exec(n));
        proof {
            assert(r@ =~= dec_str(n as int));
        }
        r
    } else {
        let mut r = u64_chars(n / 10);
        r.push(digit_char_exec(n % 10));
        r
    }
}

/// The pieces joined with `sep` between consecutive pieces.
pub open spec fn join_with(pieces: Seq<Seq<char>>, sep: Seq<char>) -> Seq<char>
    decreases pieces.len(),
{
    if pieces.len() == 0 {
        Seq::empty()
    } else if pieces.len() == 1 {
        pieces[0]
    } else {
        pieces[0] + sep + join_with(pieces.drop_first(), sep)
    }
}

/// Join character vectors with a separator.
pub fn join_slices(pieces: &[Vec<char>], sep: &[char]) -> (r: Vec<char>)
    ensures
        r@ == join_with(views_of(pieces@), sep@),
    decreases pieces@.len(),
{
    if pieces.len() == 0 {
        Vec::new()
    } else if pieces.len() == 1 {
        let r = slice_to_vec(pieces[0].as_slice());
        proof {
            assert(r@ =~= join_with(views_of(pieces@), sep@));
        }
        r
    } else {
        let mut r = slice_to_vec(pieces[0].as_slice());
        let mut s = slice_to_vec(sep);
        let tail = slice_subrange(pieces, 1, pieces.len());
        let rest = join_slices(tail, sep);
        append_chars(&mut r, s.as_slice());
        append_chars(&mut r, rest.as_slice());
        proof {
            assert(views_of(tail@) =~= views_of(pieces@).drop_first());
            assert(r@ =~= join_with(views_of(pieces@), sep@));
        }
        r
    }
}

/// Append all characters of `src` to `dst`.
pub fn append_chars(dst: &mut Vec<char>, src: &[char])
    ensures
        final(dst)@ == old(dst)@ + src@,
{
    let mut i: usize = 0;
    while i < src.len()
        invariant
            i <= src@.len(),
            dst@ == old(dst)@ + src@.take(i as int),
        decreases src@.len() - i,
    {
        dst.push(src[i]);
        i = i + 1;
        proof {
            assert(old(dst)@ + src@.take(i as int) =~= (old(dst)@ + src@.take(i - 1)).push(
                src@[i - 1],
            ));
        }
    }
    proof {
        assert(old(dst)@ + src@.take(src@.len() as int) =~= old(dst)@ + src@);
    }
}

/// Append all characters of a `&str` to `dst`.
pub fn append_str(dst: &mut Vec<char>, src: &str)
    ensures
        final(dst)@ == old(dst)@ + src@,
{
    let v = chars_of(src);
    append_chars(dst, v.as_slice());
}

/// `s` with every occurrence of `p` replaced by `q`, left to right, as std's
/// `str::replace` for a non-empty pattern.
pub open spec fn replace_sub(s: Seq<char>, p: Seq<char>, q: Seq<char>) -> Seq<char>
    decreases s.len(),
    when p.len() > 0
    via replace_sub_dec
{
    match find_sub(s, p) {
        None => s,
        Some(i) => s.subrange(0, i) + q + replace_sub(s.subrange(i + p.len(), s.len() as int), p, q),
    }
}

#[via_fn]
proof fn replace_sub_dec(s: Seq<char>, p: Seq<char>, q: Seq<char>) {
    lemma_find_sub_bounds(s, p);
}

/// Replace every occurrence of `p` in `v` by `q`.
pub fn replace_slice(v: &[char], p: &[char], q: &[char]) -> (r: Vec<char>)
    requires
        p@.len() > 0,
    ensures
        r@ == replace_sub(v@, p@, q@),
    decreases v@.len(),
{
    proof {
        lemma_find_sub_bounds(v@, p@);
    }
    match find_sub_slice(v, p) {
        None => slice_to_vec(v),
        Some(i) => {
            let vlen = v.len();
            let mut r = slice_to_vec(slice_subrange(v, 0, i));
            let tail = slice_subrange(v, i + p.len(), vlen);
            let rest = replace_slice(tail, p, q);
            append_chars(&mut r, q);
            append_chars(&mut r, rest.as_slice());
            r
        },
    }
}

} // verus!
