//! Byte-string helpers: the library keeps names, paths and URLs as UTF-8
//! text and does its string work on the underlying bytes, where every step
//! can be specified exactly over `Seq<u8>`.

use vstd::prelude::*;
use vstd::utf8::{encode_utf8, valid_utf8};

verus! {

/// The UTF-8 encoding of a string's characters: the bytes the text is made of.
pub open spec fn text_bytes(s: Seq<char>) -> Seq<u8> {
    encode_utf8(s)
}

/// Each character encodes to at least one byte, so text is at least as long
/// in bytes as in characters, and nonempty text has nonempty bytes.
pub proof fn lemma_text_bytes_len(s: Seq<char>)
    ensures
        text_bytes(s).len() >= s.len(),
    decreases s.len(),
{
    if s.len() > 0 {
        lemma_text_bytes_len(s.drop_first());
    }
}

/// The byte views of a sequence of strings.
pub open spec fn texts_of(vs: Seq<String>) -> Seq<Seq<u8>> {
    Seq::new(vs.len(), |i: int| text_bytes(vs[i]@))
}

/// `p` is a prefix of `s`.
pub open spec fn is_prefix(p: Seq<u8>, s: Seq<u8>) -> bool {
    p.len() <= s.len() && s.subrange(0, p.len() as int) == p
}

/// `needle` occurs in `s` at position `i`.
pub open spec fn occurs_at(s: Seq<u8>, needle: Seq<u8>, i: int) -> bool {
    &&& 0 <= i
    &&& i + needle.len() <= s.len()
    &&& s.subrange(i, i + needle.len() as int) == needle
}

/// Copy a slice of bytes into an owned vector.
pub fn to_vec(s: &[u8]) -> (r: Vec<u8>)
    ensures
        r@ == s@,
{
    vstd::slice::slice_to_vec(s)
}

/// The bytes of a string slice.
pub fn str_to_bytes(s: &str) -> (r: Vec<u8>)
    ensures
        r@ == text_bytes(s@),
{
    vstd::slice::slice_to_vec(s.as_bytes())
}

/// The bytes of an owned string.
pub fn string_to_bytes(s: &String) -> (r: Vec<u8>)
    ensures
        r@ == text_bytes(s@),
{
    str_to_bytes(s.as_str())
}

/// Relies on `String::from_utf8`: succeeds exactly on valid UTF-8 input and
/// returns the string whose bytes are the input, unchanged.
#[verifier::external_body]
pub fn bytes_to_string(v: Vec<u8>) -> (r: Option<String>)
    ensures
        r matches Some(s) ==> text_bytes(s@) == v@,
        valid_utf8(v@) ==> r is Some,
{
    String::from_utf8(v).ok()
}

/// Byte-wise equality of two slices.
pub fn eq_bytes(a: &[u8], b: &[u8]) -> (r: bool)
    ensures
        r == (a@ == b@),
{
    if a.len() != b.len() {
        assert(a@ != b@);
        return false;
    }
    let n = a.len();
    let mut i: usize = 0;
    while i < n
        invariant
            0 <= i <= n,
            n == a@.len() == b@.len(),
            forall|k: int| 0 <= k < i ==> a@[k] == b@[k],
        decreases n - i,
    {
        if a[i] != b[i] {
            assert(a@ != b@);
            return false;
        }
        i += 1;
    }
    assert(a@ =~= b@);
    true
}

/// `needle` compared against `s` at position `i`.
pub fn matches_at(s: &[u8], needle: &[u8], i: usize) -> (r: bool)
    requires
        i + needle@.len() <= s@.len(),
    ensures
        r == occurs_at(s@, needle@, i as int),
{
    let n = needle.len();
    let slen = s.len();
    let mut k: usize = 0;
    while k < n
        invariant
            0 <= k <= n,
            n == needle@.len(),
            slen == s@.len(),
            i + n <= slen,
            forall|j: int| 0 <= j < k ==> s@[i + j] == needle@[j],
        decreases n - k,
    {
        if s[i + k] != needle[k] {
            assert(s@.subrange(i as int, i + n) != needle@) by {
                assert(s@.subrange(i as int, i + n)[k as int] == s@[i + k]);
            }
            return false;
        }
        k += 1;
    }
    assert(s@.subrange(i as int, i + n) =~= needle@);
    true
}

/// `s` starts with `prefix`.
pub fn starts_with_bytes(s: &[u8], prefix: &[u8]) -> (r: bool)
    ensures
        r == occurs_at(s@, prefix@, 0),
{
    if prefix.len() > s.len() {
        return false;
    }
    matches_at(s, prefix, 0)
}

/// `s` ends with `suffix`.
pub fn ends_with_bytes(s: &[u8], suffix: &[u8]) -> (r: bool)
    ensures
        r == occurs_at(s@, suffix@, s@.len() - suffix@.len()),
{
    if suffix.len() > s.len() {
        return false;
    }
    matches_at(s, suffix, s.len() - suffix.len())
}

/// First position of byte `b` in `s`, if any.
pub fn find_byte(s: &[u8], b: u8) -> (r: Option<usize>)
    ensures
        match r {
            Some(i) => 0 <= i < s@.len() && s@[i as int] == b && forall|j: int|
                0 <= j < i ==> s@[j] != b,
            None => forall|j: int| 0 <= j < s@.len() ==> s@[j] != b,
        },
{
    let n = s.len();
    let mut i: usize = 0;
    while i < n
        invariant
            0 <= i <= n,
            n == s@.len(),
            forall|j: int| 0 <= j < i ==> s@[j] != b,
        decreases n - i,
    {
        if s[i] == b {
            return Some(i);
        }
        i += 1;
    }
    None
}

/// Last position of byte `b` in `s`, if any.
pub fn rfind_byte(s: &[u8], b: u8) -> (r: Option<usize>)
    ensures
        match r {
            Some(i) => 0 <= i < s@.len() && s@[i as int] == b && forall|j: int|
                i < j < s@.len() ==> s@[j] != b,
            None => forall|j: int| 0 <= j < s@.len() ==> s@[j] != b,
        },
{
    let n = s.len();
    let mut i: usize = n;
    while i > 0
        invariant
            0 <= i <= n,
            n == s@.len(),
            forall|j: int| i <= j < n ==> s@[j] != b,
        decreases i,
    {
        i -= 1;
        if s[i] == b {
            return Some(i);
        }
    }
    None
}

/// `b` occurs somewhere in `s`.
pub fn contains_byte(s: &[u8], b: u8) -> (r: bool)
    ensures
        r == exists|j: int| 0 <= j < s@.len() && s@[j] == b,
{
    let r = find_byte(s, b);
    match r {
        Some(i) => {
            assert(0 <= i < s@.len() && s@[i as int] == b);
            true
        },
        None => false,
    }
}

/// `s` with every trailing occurrence of byte `c` removed.
pub open spec fn spec_trim_trailing(s: Seq<u8>, c: u8) -> Seq<u8>
    decreases s.len(),
{
    if s.len() > 0 && s.last() == c {
        spec_trim_trailing(s.drop_last(), c)
    } else {
        s
    }
}

pub fn trim_trailing(s: &[u8], c: u8) -> (r: Vec<u8>)
    ensures
        r@ == spec_trim_trailing(s@, c),
{
    let mut end = s.len();
    proof {
        assert(s@.subrange(0, end as int) =~= s@);
    }
    while end > 0 && s[end - 1] == c
        invariant
            0 <= end <= s@.len(),
            spec_trim_trailing(s@, c) == spec_trim_trailing(s@.subrange(0, end as int), c),
        decreases end,
    {
        proof {
            assert(s@.subrange(0, end as int).drop_last() =~= s@.subrange(0, end - 1));
        }
        end -= 1;
    }
    proof {
        if end > 0 {
            assert(s@.subrange(0, end as int).last() != c);
        }
        assert(spec_trim_trailing(s@.subrange(0, end as int), c) == s@.subrange(0, end as int));
    }
    let r = vstd::slice::slice_subrange(s, 0, end);
    to_vec(r)
}

/// The first piece of a split extended to the left with `p`.
pub open spec fn prepend_first(p: Seq<u8>, parts: Seq<Seq<u8>>) -> Seq<Seq<u8>> {
    parts.update(0, p + parts[0])
}

/// The pieces of `s` between occurrences of the byte `sep`: an empty input
/// gives one empty piece, and `n` separators give `n + 1` pieces.
pub open spec fn spec_split(s: Seq<u8>, sep: u8) -> Seq<Seq<u8>>
    decreases s.len(),
{
    if s.len() == 0 {
        seq![s]
    } else if s[0] == sep {
        seq![Seq::<u8>::empty()] + spec_split(s.skip(1), sep)
    } else {
        prepend_first(seq![s[0]], spec_split(s.skip(1), sep))
    }
}

pub proof fn lemma_split_nonempty(s: Seq<u8>, sep: u8)
    ensures
        spec_split(s, sep).len() >= 1,
    decreases s.len(),
{
    if s.len() > 0 {
        lemma_split_nonempty(s.skip(1), sep);
    }
}

/// The views of a sequence of byte vectors.
pub open spec fn views_of(vs: Seq<Vec<u8>>) -> Seq<Seq<u8>> {
    Seq::new(vs.len(), |i: int| vs[i]@)
}

pub fn split_byte(s: &[u8], sep: u8) -> (r: Vec<Vec<u8>>)
    ensures
        views_of(r@) == spec_split(s@, sep),
        r@.len() >= 1,
{
    let n = s.len();
    let mut done: Vec<Vec<u8>> = Vec::new();
    let mut cur: Vec<u8> = Vec::new();
    let mut i: usize = 0;
    proof {
        assert(s@.skip(0) =~= s@);
        assert(prepend_first(cur@, spec_split(s@, sep)) =~~= spec_split(s@, sep)) by {
            lemma_split_nonempty(s@, sep);
        }
        assert(views_of(done@) + prepend_first(cur@, spec_split(s@.skip(0), sep))
            =~~= spec_split(s@, sep));
    }
    while i < n
        invariant
            0 <= i <= n,
            n == s@.len(),
            spec_split(s@, sep) == views_of(done@) + prepend_first(
                cur@,
                spec_split(s@.skip(i as int), sep),
            ),
        decreases n - i,
    {
        let ghost rest = s@.skip(i as int);
        proof {
            assert(rest.len() > 0);
            assert(rest[0] == s@[i as int]);
            assert(rest.skip(1) =~= s@.skip(i + 1));
            lemma_split_nonempty(rest.skip(1), sep);
        }
        if s[i] == sep {
            proof {
                assert(spec_split(rest, sep) == seq![Seq::<u8>::empty()] + spec_split(
                    rest.skip(1),
                    sep,
                ));
                assert(prepend_first(cur@, spec_split(rest, sep)) =~~= seq![cur@] + spec_split(
                    rest.skip(1),
                    sep,
                ));
                lemma_split_nonempty(s@.skip(i + 1), sep);
                assert(prepend_first(Seq::<u8>::empty(), spec_split(s@.skip(i + 1), sep))
                    =~~= spec_split(s@.skip(i + 1), sep));
            }
            let ghost done_pre = done@;
            let ghost curv = cur@;
            done.push(cur);
            cur = Vec::new();
            proof {
                assert(views_of(done@) =~~= views_of(done_pre) + seq![curv]);
                assert((views_of(done_pre) + seq![curv]) + spec_split(s@.skip(i + 1), sep)
                    =~~= views_of(done_pre) + (seq![curv] + spec_split(s@.skip(i + 1), sep)));
                assert(spec_split(s@, sep) == views_of(done@) + prepend_first(
                    cur@,
                    spec_split(s@.skip(i + 1), sep),
                ));
            }
        } else {
            proof {
                assert(spec_split(rest, sep) == prepend_first(
                    seq![rest[0]],
                    spec_split(rest.skip(1), sep),
                ));
                assert(prepend_first(cur@, spec_split(rest, sep)) =~~= prepend_first(
                    cur@ + seq![s@[i as int]],
                    spec_split(rest.skip(1), sep),
                ));
            }
            let ghost cur_pre = cur@;
            cur.push(s[i]);
            proof {
                assert(cur@ =~= cur_pre + seq![s@[i as int]]);
                assert(spec_split(s@, sep) == views_of(done@) + prepend_first(
                    cur@,
                    spec_split(s@.skip(i + 1), sep),
                ));
            }
        }
        i += 1;
    }
    proof {
        assert(s@.skip(n as int) =~= Seq::<u8>::empty());
        assert(spec_split(s@.skip(n as int), sep) == seq![Seq::<u8>::empty()].push(
            Seq::<u8>::empty(),
        ).drop_last());
        assert(prepend_first(cur@, spec_split(s@.skip(n as int), sep)) =~~= seq![cur@]);
    }
    let ghost done_pre = done@;
    let ghost curv = cur@;
    done.push(cur);
    proof {
        assert(views_of(done@) =~~= views_of(done_pre) + seq![curv]);
        assert(views_of(done@) =~~= spec_split(s@, sep));
    }
    done
}

/// `s` with every occurrence of `from` replaced by `to`, scanning left to
/// right without overlap, as `str::replace` does.
pub open spec fn spec_replace(s: Seq<u8>, from: Seq<u8>, to: Seq<u8>) -> Seq<u8>
    decreases s.len(),
    when from.len() >= 1
{
    if s.len() < from.len() {
        s
    } else if s.subrange(0, from.len() as int) == from {
        to + spec_replace(s.skip(from.len() as int), from, to)
    } else {
        seq![s[0]] + spec_replace(s.skip(1), from, to)
    }
}

pub fn replace_all(s: &[u8], from: &[u8], to: &[u8]) -> (r: Vec<u8>)
    requires
        from@.len() >= 1,
    ensures
        r@ == spec_replace(s@, from@, to@),
{
    let n = s.len();
    let flen = from.len();
    let mut acc: Vec<u8> = Vec::new();
    let mut i: usize = 0;
    proof {
        assert(s@.skip(0) =~= s@);
    }
    while flen <= n - i
        invariant
            0 <= i <= n,
            n == s@.len(),
            flen == from@.len() >= 1,
            spec_replace(s@, from@, to@) == acc@ + spec_replace(s@.skip(i as int), from@, to@),
        decreases n - i,
    {
        let ghost rest = s@.skip(i as int);
        proof {
            assert(rest.len() >= flen);
            assert(rest.subrange(0, flen as int) =~= s@.subrange(i as int, i + flen));
        }
        if matches_at(s, from, i) {
            proof {
                assert(rest.subrange(0, flen as int) == from@);
                assert(rest.skip(flen as int) =~= s@.skip(i + flen));
                assert(spec_replace(rest, from@, to@) == to@ + spec_replace(
                    s@.skip(i + flen),
                    from@,
                    to@,
                ));
            }
            acc.extend_from_slice(to);
            i += flen;
        } else {
            proof {
                assert(rest.subrange(0, flen as int) != from@);
                assert(rest[0] == s@[i as int]);
                assert(rest.skip(1) =~= s@.skip(i + 1));
                assert(spec_replace(rest, from@, to@) == seq![s@[i as int]] + spec_replace(
                    s@.skip(i + 1),
                    from@,
                    to@,
                ));
            }
            acc.push(s[i]);
            i += 1;
        }
    }
    let ghost rest = s@.skip(i as int);
    proof {
        assert(rest.len() < flen);
        assert(spec_replace(rest, from@, to@) == rest);
    }
    let tail = vstd::slice::slice_subrange(s, i, n);
    proof {
        assert(tail@ =~= rest);
    }
    acc.extend_from_slice(tail);
    acc
}

/// `s` with every trailing copy of `pat` removed.
pub open spec fn spec_trim_trailing_sub(s: Seq<u8>, pat: Seq<u8>) -> Seq<u8>
    decreases s.len(),
    when pat.len() >= 1
{
    if s.len() >= pat.len() && s.subrange(s.len() - pat.len(), s.len() as int) == pat {
        spec_trim_trailing_sub(s.subrange(0, s.len() - pat.len()), pat)
    } else {
        s
    }
}

pub fn trim_trailing_sub(s: &[u8], pat: &[u8]) -> (r: Vec<u8>)
    requires
        pat@.len() >= 1,
    ensures
        r@ == spec_trim_trailing_sub(s@, pat@),
{
    let plen = pat.len();
    let mut end = s.len();
    proof {
        assert(s@.subrange(0, end as int) =~= s@);
    }
    while end >= plen && matches_at(s, pat, end - plen)
        invariant
            0 <= end <= s@.len(),
            plen == pat@.len() >= 1,
            spec_trim_trailing_sub(s@, pat@) == spec_trim_trailing_sub(
                s@.subrange(0, end as int),
                pat@,
            ),
        decreases end,
    {
        proof {
            let cur = s@.subrange(0, end as int);
            assert(cur.subrange(cur.len() - plen, cur.len() as int) =~= s@.subrange(
                end - plen,
                end as int,
            ));
            assert(cur.subrange(0, cur.len() - plen) =~= s@.subrange(0, end - plen));
        }
        end -= plen;
    }
    proof {
        let cur = s@.subrange(0, end as int);
        if cur.len() >= plen {
            assert(cur.subrange(cur.len() - plen, cur.len() as int) =~= s@.subrange(
                end - plen,
                end as int,
            ));
        }
        assert(spec_trim_trailing_sub(cur, pat@) == cur);
    }
    to_vec(vstd::slice::slice_subrange(s, 0, end))
}

/// `s` with every leading copy of `pat` removed.
pub open spec fn spec_trim_leading_sub(s: Seq<u8>, pat: Seq<u8>) -> Seq<u8>
    decreases s.len(),
    when pat.len() >= 1
{
    if s.len() >= pat.len() && s.subrange(0, pat.len() as int) == pat {
        spec_trim_leading_sub(s.subrange(pat.len() as int, s.len() as int), pat)
    } else {
        s
    }
}

pub fn trim_leading_sub(s: &[u8], pat: &[u8]) -> (r: Vec<u8>)
    requires
        pat@.len() >= 1,
    ensures
        r@ == spec_trim_leading_sub(s@, pat@),
{
    let plen = pat.len();
    let n = s.len();
    let mut start: usize = 0;
    proof {
        assert(s@.subrange(0, n as int) =~= s@);
    }
    while n - start >= plen && matches_at(s, pat, start)
        invariant
            0 <= start <= n,
            n == s@.len(),
            plen == pat@.len() >= 1,
            spec_trim_leading_sub(s@, pat@) == spec_trim_leading_sub(
                s@.subrange(start as int, n as int),
                pat@,
            ),
        decreases n - start,
    {
        proof {
            let cur = s@.subrange(start as int, n as int);
            assert(cur.subrange(0, plen as int) =~= s@.subrange(start as int, start + plen));
            assert(cur.subrange(plen as int, cur.len() as int) =~= s@.subrange(
                start + plen,
                n as int,
            ));
        }
        start += plen;
    }
    proof {
        let cur = s@.subrange(start as int, n as int);
        if cur.len() >= plen {
            assert(cur.subrange(0, plen as int) =~= s@.subrange(start as int, start + plen));
        }
        assert(spec_trim_leading_sub(cur, pat@) == cur);
    }
    to_vec(vstd::slice::slice_subrange(s, start, n))
}

/// Index of the last occurrence of `b` in `s`, or `-1` when there is none.
pub open spec fn spec_rfind(s: Seq<u8>, b: u8) -> int
    decreases s.len(),
{
    if s.len() == 0 {
        -1
    } else if s.last() == b {
        s.len() - 1
    } else {
        spec_rfind(s.drop_last(), b)
    }
}

/// `spec_rfind` finds exactly the last occurrence.
pub proof fn lemma_spec_rfind(s: Seq<u8>, b: u8)
    ensures
        spec_rfind(s, b) < 0 ==> forall|j: int| 0 <= j < s.len() ==> s[j] != b,
        spec_rfind(s, b) >= 0 ==> 0 <= spec_rfind(s, b) < s.len() && s[spec_rfind(s, b)] == b
            && forall|j: int| spec_rfind(s, b) < j < s.len() ==> s[j] != b,
    decreases s.len(),
{
    if s.len() > 0 && s.last() != b {
        let dl = s.drop_last();
        lemma_spec_rfind(dl, b);
        assert(forall|j: int| 0 <= j < dl.len() ==> dl[j] == #[trigger] s[j]);
    }
}

/// Numeric value of a sequence of ASCII decimal digits.
pub open spec fn spec_digits_value(s: Seq<u8>) -> int
    decreases s.len(),
{
    if s.len() == 0 {
        0
    } else {
        spec_digits_value(s.drop_last()) * 10 + (s.last() - 48)
    }
}

/// Every byte of `s` is an ASCII decimal digit.
pub open spec fn all_digits(s: Seq<u8>) -> bool {
    forall|j: int| 0 <= j < s.len() ==> 48 <= #[trigger] s[j] <= 57
}

pub proof fn lemma_digits_value_nonneg(s: Seq<u8>)
    requires
        all_digits(s),
    ensures
        spec_digits_value(s) >= 0,
    decreases s.len(),
{
    if s.len() > 0 {
        assert(all_digits(s.drop_last()));
        lemma_digits_value_nonneg(s.drop_last());
    }
}

/// Parse a non-empty run of ASCII digits as a `u64`; `None` on an empty or
/// non-digit input, and on a value that does not fit.
pub fn parse_u64_digits(s: &[u8]) -> (r: Option<u64>)
    ensures
        match r {
            Some(n) => s@.len() >= 1 && all_digits(s@) && n == spec_digits_value(s@),
            None => s@.len() == 0 || !all_digits(s@) || spec_digits_value(s@) > u64::MAX,
        },
{
    let n = s.len();
    if n == 0 {
        return None;
    }
    let mut acc: u64 = 0;
    let mut i: usize = 0;
    while i < n
        invariant
            0 <= i <= n,
            n == s@.len(),
            all_digits(s@.subrange(0, i as int)),
            acc == spec_digits_value(s@.subrange(0, i as int)),
        decreases n - i,
    {
        let d = s[i];
        if d < 48 || d > 57 {
            assert(!all_digits(s@));
            return None;
        }
        proof {
            assert(s@.subrange(0, i + 1).drop_last() =~= s@.subrange(0, i as int));
            assert(all_digits(s@.subrange(0, i + 1)));
        }
        let acc10 = match acc.checked_mul(10) {
            Some(v) => v,
            None => {
                proof {
                    lemma_digits_prefix_overflow(s@, i as int);
                }
                return None;
            },
        };
        let acc2 = match acc10.checked_add((d - 48) as u64) {
            Some(v) => v,
            None => {
                proof {
                    lemma_digits_prefix_overflow(s@, i as int);
                }
                return None;
            },
        };
        acc = acc2;
        i += 1;
    }
    proof {
        assert(s@.subrange(0, n as int) =~= s@);
    }
    Some(acc)
}

/// A short run of digits names a small value.
pub proof fn lemma_digits_value_small(s: Seq<u8>)
    requires
        all_digits(s),
        s.len() <= 3,
    ensures
        0 <= spec_digits_value(s) <= 999,
        s.len() <= 2 ==> spec_digits_value(s) <= 99,
        s.len() <= 1 ==> spec_digits_value(s) <= 9,
    decreases s.len(),
{
    if s.len() > 0 {
        assert(all_digits(s.drop_last()));
        lemma_digits_value_small(s.drop_last());
    }
}

/// If the digits up to position `i` already name a value past `u64::MAX`
/// after one more digit, the whole run does too.
proof fn lemma_digits_prefix_overflow(s: Seq<u8>, i: int)
    requires
        0 <= i < s.len(),
        all_digits(s.subrange(0, i)),
        48 <= s[i] <= 57,
        spec_digits_value(s.subrange(0, i)) * 10 + (s[i] - 48) > u64::MAX,
    ensures
        !all_digits(s) || spec_digits_value(s) > u64::MAX,
{
    if all_digits(s) {
        assert(s.subrange(0, i + 1).drop_last() =~= s.subrange(0, i));
        assert(spec_digits_value(s.subrange(0, i + 1)) > u64::MAX);
        lemma_digits_value_monotone(s, i + 1);
    }
}

/// With digit input, the value of a prefix never exceeds the whole value.
proof fn lemma_digits_value_monotone(s: Seq<u8>, i: int)
    requires
        all_digits(s),
        0 <= i <= s.len(),
    ensures
        spec_digits_value(s.subrange(0, i)) <= spec_digits_value(s),
    decreases s.len() - i,
{
    if i == s.len() {
        assert(s.subrange(0, i) =~= s);
    } else {
        lemma_digits_value_monotone(s, i + 1);
        let p = s.subrange(0, i);
        let q = s.subrange(0, i + 1);
        assert(q.drop_last() =~= p);
        assert(all_digits(p)) by {
            assert(forall|j: int| 0 <= j < p.len() ==> p[j] == s[j]);
        }
        lemma_digits_value_nonneg(p);
        assert(spec_digits_value(q) == spec_digits_value(p) * 10 + (s[i] - 48));
        assert(spec_digits_value(p) * 10 >= spec_digits_value(p));
    }
}

} // verus!
