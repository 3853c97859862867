//! Data model for one remote directory listing: entry kind, size (precise or
//! humanised), naive modification time, and the listed entry itself.

use vstd::prelude::*;

use crate::bytes::{all_digits, spec_digits_value};

verus! {

/// Kind of a listed entry: a plain file or a directory.
#[derive(Debug, PartialEq, Eq, Structural, Clone, Copy)]
pub enum FileType {
    File,
    Directory,
}

/// Unit of a humanised size token, as printed by index pages.
#[derive(Debug, PartialEq, Eq, Structural, Clone, Copy)]
pub enum SizeUnit {
    B,
    K,
    M,
    G,
    T,
    P,
}

impl SizeUnit {
    /// Exponent of the unit: the size is `value * base^exp` bytes.
    pub open spec fn spec_exp(self) -> nat {
        match self {
            SizeUnit::B => 0,
            SizeUnit::K => 1,
            SizeUnit::M => 2,
            SizeUnit::G => 3,
            SizeUnit::T => 4,
            SizeUnit::P => 5,
        }
    }

    /// Number of bytes in one unit, for a binary (1024) or decimal (1000) base.
    pub open spec fn spec_factor(self, base: int) -> int {
        match self {
            SizeUnit::B => 1,
            SizeUnit::K => base,
            SizeUnit::M => base * base,
            SizeUnit::G => base * base * base,
            SizeUnit::T => base * base * base * base,
            SizeUnit::P => base * base * base * base * base,
        }
    }

    pub fn get_exp(&self) -> (e: u32)
        ensures
            e == self.spec_exp(),
    {
        match self {
            SizeUnit::B => 0,
            SizeUnit::K => 1,
            SizeUnit::M => 2,
            SizeUnit::G => 3,
            SizeUnit::T => 4,
            SizeUnit::P => 5,
        }
    }

    /// `1024^exp`, the byte count of one unit under the binary base.
    pub fn binary_factor(&self) -> (f: u64)
        ensures
            f == self.spec_factor(1024),
    {
        match self {
            SizeUnit::B => 1,
            SizeUnit::K => 1024,
            SizeUnit::M => 1048576,
            SizeUnit::G => 1073741824,
            SizeUnit::T => 1099511627776,
            SizeUnit::P => 1125899906842624,
        }
    }

    /// `1000^exp`, the byte count of one unit under the decimal base.
    pub fn decimal_factor(&self) -> (f: u64)
        ensures
            f == self.spec_factor(1000),
    {
        match self {
            SizeUnit::B => 1,
            SizeUnit::K => 1000,
            SizeUnit::M => 1000000,
            SizeUnit::G => 1000000000,
            SizeUnit::T => 1000000000000,
            SizeUnit::P => 1000000000000000,
        }
    }
}

/// Size of a remote entry.  Humanised sizes carry the printed value in
/// thousandths of a unit, so `3.0 K` is held as `HumanizedBinary(3000, K)`.
#[derive(Debug, PartialEq, Eq, Structural, Clone, Copy)]
pub enum FileSize {
    Precise(u64),
    /// `value_millis / 1000` units of `1024^exp` bytes each.
    HumanizedBinary(u64, SizeUnit),
    /// `value_millis / 1000` units of `1000^exp` bytes each.
    HumanizedDecimal(u64, SizeUnit),
}

impl FileSize {
    /// Estimated byte count of this size, saturating at `u64::MAX`.
    pub open spec fn spec_estimated(self) -> int {
        match self {
            FileSize::Precise(s) => s as int,
            FileSize::HumanizedBinary(m, u) => {
                let v = m * u.spec_factor(1024) / 1000;
                if v > u64::MAX { u64::MAX as int } else { v }
            },
            FileSize::HumanizedDecimal(m, u) => {
                let v = m * u.spec_factor(1000) / 1000;
                if v > u64::MAX { u64::MAX as int } else { v }
            },
        }
    }

    pub fn get_estimated(&self) -> (r: u64)
        ensures
            r == self.spec_estimated(),
    {
        match self {
            FileSize::Precise(s) => *s,
            FileSize::HumanizedBinary(m, u) => {
                let f = u.binary_factor();
                proof {
                    lemma_u64_product_fits_u128(*m, f);
                }
                let v: u128 = (*m as u128) * (f as u128) / 1000;
                if v > u64::MAX as u128 {
                    u64::MAX
                } else {
                    v as u64
                }
            },
            FileSize::HumanizedDecimal(m, u) => {
                let f = u.decimal_factor();
                proof {
                    lemma_u64_product_fits_u128(*m, f);
                }
                let v: u128 = (*m as u128) * (f as u128) / 1000;
                if v > u64::MAX as u128 {
                    u64::MAX
                } else {
                    v as u64
                }
            },
        }
    }
}

/// Every unit factor is at least one byte and fits in a `u64`.
pub proof fn lemma_factor_positive(u: SizeUnit)
    ensures
        1 <= u.spec_factor(1024) <= 1125899906842624,
        1 <= u.spec_factor(1000) <= 1000000000000000,
{
}

/// The product of two `u64` values always fits in a `u128`.
pub proof fn lemma_u64_product_fits_u128(a: u64, b: u64)
    ensures
        a * b <= u128::MAX,
{
    assert(a * b <= (u64::MAX as int) * (u64::MAX as int)) by (nonlinear_arith)
        requires
            a <= u64::MAX,
            b <= u64::MAX,
    ;
}

/// A byte a humanised token counts as numeric: an ASCII digit or a dot.
pub open spec fn is_numeric_byte(b: u8) -> bool {
    (48 <= b <= 57) || b == 46
}

/// ASCII whitespace, as trimmed from the unit half of a token.
pub open spec fn is_space_byte(b: u8) -> bool {
    b == 32 || (9 <= b <= 13)
}

/// ASCII lowercase of one byte.
pub open spec fn spec_lower_byte(b: u8) -> u8 {
    if 65 <= b <= 90 {
        (b + 32) as u8
    } else {
        b
    }
}

/// The numeric half of a humanised token: its digits and dots, in order.
pub open spec fn numeric_part(s: Seq<u8>) -> Seq<u8> {
    s.filter(|b: u8| is_numeric_byte(b))
}

/// The unit half of a humanised token: everything else, in order.
pub open spec fn unit_part(s: Seq<u8>) -> Seq<u8> {
    s.filter(|b: u8| !is_numeric_byte(b))
}

/// Lowercase a byte string.
pub open spec fn spec_lower(s: Seq<u8>) -> Seq<u8> {
    Seq::new(s.len(), |i: int| spec_lower_byte(s[i]))
}

/// Drop leading whitespace.
pub open spec fn spec_trim_spaces_front(s: Seq<u8>) -> Seq<u8>
    decreases s.len(),
{
    if s.len() > 0 && is_space_byte(s[0]) {
        spec_trim_spaces_front(s.drop_first())
    } else {
        s
    }
}

/// Drop trailing whitespace.
pub open spec fn spec_trim_spaces_back(s: Seq<u8>) -> Seq<u8>
    decreases s.len(),
{
    if s.len() > 0 && is_space_byte(s.last()) {
        spec_trim_spaces_back(s.drop_last())
    } else {
        s
    }
}

/// The unit half, lowercased and trimmed: what is matched against the unit
/// letters.
pub open spec fn normalized_unit(s: Seq<u8>) -> Seq<u8> {
    spec_trim_spaces_front(spec_trim_spaces_back(spec_lower(unit_part(s))))
}

/// The unit named by a normalised unit string: empty or `b` is bytes, one
/// of `k m g t p` its power; anything else is unknown.
pub open spec fn spec_unit_of(u: Seq<u8>) -> Option<SizeUnit> {
    if u.len() == 0 {
        Some(SizeUnit::B)
    } else if u.len() == 1 {
        if u[0] == 98 {
            Some(SizeUnit::B)
        } else if u[0] == 107 {
            Some(SizeUnit::K)
        } else if u[0] == 109 {
            Some(SizeUnit::M)
        } else if u[0] == 103 {
            Some(SizeUnit::G)
        } else if u[0] == 116 {
            Some(SizeUnit::T)
        } else if u[0] == 112 {
            Some(SizeUnit::P)
        } else {
            None
        }
    } else {
        None
    }
}

/// Thousandths named by a fraction's digits; digits past the third are
/// dropped.
pub open spec fn spec_frac_millis(frac: Seq<u8>) -> int {
    if frac.len() == 0 {
        0
    } else if frac.len() == 1 {
        spec_digits_value(frac) * 100
    } else if frac.len() == 2 {
        spec_digits_value(frac) * 10
    } else {
        spec_digits_value(frac.take(3))
    }
}

/// Index of the first dot in `num`, or `-1` when there is none.
pub open spec fn first_dot(num: Seq<u8>) -> int
    decreases num.len(),
{
    if num.len() == 0 {
        -1
    } else if num[0] == 46 {
        0
    } else if first_dot(num.drop_first()) < 0 {
        -1
    } else {
        first_dot(num.drop_first()) + 1
    }
}

/// `first_dot` finds exactly the first dot.
pub proof fn lemma_first_dot(num: Seq<u8>)
    ensures
        first_dot(num) < 0 ==> forall|j: int| 0 <= j < num.len() ==> num[j] != 46,
        first_dot(num) >= 0 ==> 0 <= first_dot(num) < num.len() && num[first_dot(num)] == 46
            && forall|j: int| 0 <= j < first_dot(num) ==> num[j] != 46,
    decreases num.len(),
{
    if num.len() > 0 && num[0] != 46 {
        let df = num.drop_first();
        lemma_first_dot(df);
        assert(forall|j: int| 0 <= j < df.len() ==> #[trigger] df[j] == num[j + 1]);
        if first_dot(df) < 0 {
            assert forall|j: int| 0 <= j < num.len() implies num[j] != 46 by {
                if j >= 1 {
                    assert(df[j - 1] != 46);
                }
            }
        } else {
            assert(num[first_dot(num)] == df[first_dot(df)]);
            assert forall|j: int| 0 <= j < first_dot(num) implies num[j] != 46 by {
                if j >= 1 {
                    assert(df[j - 1] != 46);
                }
            }
        }
    }
}

/// The value of the numeric half, in thousandths: `None` on an empty
/// numeric part, more than one dot, or a value that does not fit.
pub open spec fn spec_numeric_millis(num: Seq<u8>) -> Option<u64> {
    let d = first_dot(num);
    if num.len() == 0 {
        None
    } else if d < 0 {
        // plain digits
        if spec_digits_value(num) * 1000 <= u64::MAX {
            Some((spec_digits_value(num) * 1000) as u64)
        } else {
            None
        }
    } else {
        let intp = num.take(d);
        let frac = num.skip(d + 1);
        if first_dot(frac) >= 0 {
            None  // a second dot
        } else if intp.len() == 0 && frac.len() == 0 {
            None
        } else if spec_digits_value(intp) * 1000 + spec_frac_millis(frac) <= u64::MAX {
            Some((spec_digits_value(intp) * 1000 + spec_frac_millis(frac)) as u64)
        } else {
            None
        }
    }
}

/// The reading of a whole humanised token: thousandths of a unit, and the
/// unit.
pub open spec fn spec_humanized(s: Seq<u8>) -> Option<(u64, SizeUnit)> {
    match (spec_numeric_millis(numeric_part(s)), spec_unit_of(normalized_unit(s))) {
        (Some(m), Some(u)) => Some((m, u)),
        _ => None,
    }
}

/// Every byte of the numeric half is a digit or a dot.
pub proof fn lemma_numeric_part_digits(s: Seq<u8>)
    ensures
        forall|i: int|
            0 <= i < numeric_part(s).len() ==> is_numeric_byte(#[trigger] numeric_part(s)[i]),
    decreases s.len(),
{
    reveal_with_fuel(Seq::filter, 2);
    if s.len() > 0 {
        lemma_numeric_part_digits(s.drop_last());
        assert(numeric_part(s.drop_last()) == s.drop_last().filter(|b: u8| is_numeric_byte(b)));
        if is_numeric_byte(s.last()) {
            assert(numeric_part(s) == numeric_part(s.drop_last()).push(s.last()));
        } else {
            assert(numeric_part(s) == numeric_part(s.drop_last()));
        }
    }
}

impl FileSize {
    /// Read a humanised size token such as `262.1K`: digits and dots form
    /// the value in thousandths of a unit (digits past the third decimal are
    /// dropped), the remaining characters, lowercased and trimmed, name the
    /// unit.  `None` where the token holds no usable value or an unknown
    /// unit.
    pub fn get_humanized(s: &str) -> (r: Option<(u64, SizeUnit)>)
        ensures
            r == spec_humanized(crate::bytes::text_bytes(s@)),
    {
        let bytes = crate::bytes::str_to_bytes(s);
        let (num, unit_raw) = split_numeric_unit(bytes.as_slice());
        let unit_norm = trim_spaces(lower_bytes(unit_raw.as_slice()).as_slice());
        let unit_found: Option<SizeUnit> = if unit_norm.len() == 0 {
            Some(SizeUnit::B)
        } else if unit_norm.len() == 1 {
            let b = unit_norm[0];
            if b == 98 {
                Some(SizeUnit::B)
            } else if b == 107 {
                Some(SizeUnit::K)
            } else if b == 109 {
                Some(SizeUnit::M)
            } else if b == 103 {
                Some(SizeUnit::G)
            } else if b == 116 {
                Some(SizeUnit::T)
            } else if b == 112 {
                Some(SizeUnit::P)
            } else {
                None
            }
        } else {
            None
        };
        proof {
            assert(unit_found == spec_unit_of(normalized_unit(bytes@)));
            lemma_numeric_part_digits(bytes@);
        }
        let unit = match unit_found {
            Some(u) => u,
            None => {
                return None;
            },
        };
        match numeric_millis(num.as_slice()) {
            Some(m) => Some((m, unit)),
            None => None,
        }
    }
}

/// With digit input, the fraction's thousandths are non-negative.
proof fn lemma_frac_millis_nonneg(frac: Seq<u8>)
    requires
        all_digits(frac),
    ensures
        spec_frac_millis(frac) >= 0,
{
    if frac.len() >= 3 {
        assert(all_digits(frac.take(3)));
        crate::bytes::lemma_digits_value_nonneg(frac.take(3));
    } else {
        crate::bytes::lemma_digits_value_nonneg(frac);
    }
}

/// The value of the numeric half in thousandths, per [`spec_numeric_millis`].
fn numeric_millis(num: &[u8]) -> (r: Option<u64>)
    requires
        forall|i: int| 0 <= i < num@.len() ==> is_numeric_byte(#[trigger] num@[i]),
    ensures
        r == spec_numeric_millis(num@),
{
    proof {
        lemma_first_dot(num@);
    }
    let n = num.len();
    if n == 0 {
        return None;
    }
    match crate::bytes::find_byte(num, 46) {
        None => {
            let v = match crate::bytes::parse_u64_digits(num) {
                Some(v) => v,
                None => {
                    return None;
                },
            };
            match v.checked_mul(1000) {
                Some(m) => Some(m),
                None => None,
            }
        },
        Some(d) => {
            proof {
                assert(first_dot(num@) == d);
            }
            let intb = vstd::slice::slice_subrange(num, 0, d);
            let fracb = vstd::slice::slice_subrange(num, d + 1, n);
            proof {
                assert(intb@ =~= num@.take(d as int));
                assert(fracb@ =~= num@.skip(d + 1));
                lemma_first_dot(fracb@);
            }
            if crate::bytes::contains_byte(fracb, 46) {
                return None;  // a second dot
            }
            if intb.len() == 0 && fracb.len() == 0 {
                return None;
            }
            proof {
                assert(crate::bytes::all_digits(intb@));
                assert(crate::bytes::all_digits(fracb@));
            }
            let int_val: u64 = if intb.len() == 0 {
                0
            } else {
                match crate::bytes::parse_u64_digits(intb) {
                    Some(v) => v,
                    None => {
                        proof {
                            lemma_frac_millis_nonneg(fracb@);
                        }
                        return None;
                    },
                }
            };
            let k: usize = if fracb.len() >= 3 {
                3
            } else {
                fracb.len()
            };
            let frac_head = vstd::slice::slice_subrange(fracb, 0, k);
            proof {
                assert(frac_head@ =~= fracb@.take(k as int));
                assert(crate::bytes::all_digits(frac_head@));
                crate::bytes::lemma_digits_value_small(frac_head@);
                if fracb@.len() >= 3 {
                    assert(frac_head@ =~= fracb@.take(3));
                } else {
                    assert(frac_head@ =~= fracb@);
                }
            }
            let frac3: u64 = if k == 0 {
                0
            } else {
                let fv = match crate::bytes::parse_u64_digits(frac_head) {
                    Some(v) => v,
                    None => {
                        proof {
                            // unreachable: at most three digits always fit
                            assert(false);
                        }
                        0
                    },
                };
                if k == 1 {
                    fv * 100
                } else if k == 2 {
                    fv * 10
                } else {
                    fv
                }
            };
            proof {
                assert(frac3 == spec_frac_millis(fracb@));
                lemma_frac_millis_nonneg(fracb@);
            }
            let base = match int_val.checked_mul(1000) {
                Some(v) => v,
                None => {
                    return None;
                },
            };
            match base.checked_add(frac3) {
                Some(m) => Some(m),
                None => None,
            }
        },
    }
}

/// Split a token into its numeric half (digits and dots) and the rest.
fn split_numeric_unit(s: &[u8]) -> (r: (Vec<u8>, Vec<u8>))
    ensures
        r.0@ == numeric_part(s@),
        r.1@ == unit_part(s@),
{
    let n = s.len();
    let mut num: Vec<u8> = Vec::new();
    let mut unit: Vec<u8> = Vec::new();
    let mut i: usize = 0;
    proof {
        assert(s@.take(0) =~= Seq::<u8>::empty());
        reveal_with_fuel(Seq::filter, 2);
        assert(num@ =~= numeric_part(s@.take(0)));
        assert(unit@ =~= unit_part(s@.take(0)));
    }
    while i < n
        invariant
            0 <= i <= n,
            n == s@.len(),
            num@ == numeric_part(s@.take(i as int)),
            unit@ == unit_part(s@.take(i as int)),
        decreases n - i,
    {
        proof {
            reveal_with_fuel(Seq::filter, 2);
            assert(s@.take(i + 1).drop_last() =~= s@.take(i as int));
            assert(s@.take(i + 1).last() == s@[i as int]);
        }
        let b = s[i];
        if (48 <= b && b <= 57) || b == 46 {
            num.push(b);
        } else {
            unit.push(b);
        }
        i += 1;
    }
    proof {
        assert(s@.take(n as int) =~= s@);
    }
    (num, unit)
}

/// Lowercase every byte.
fn lower_bytes(s: &[u8]) -> (r: Vec<u8>)
    ensures
        r@ == spec_lower(s@),
{
    let n = s.len();
    let mut out: Vec<u8> = Vec::new();
    let mut i: usize = 0;
    while i < n
        invariant
            0 <= i <= n,
            n == s@.len(),
            out@.len() == i,
            forall|k: int| 0 <= k < i ==> out@[k] == spec_lower_byte(s@[k]),
        decreases n - i,
    {
        let b = s[i];
        if 65 <= b && b <= 90 {
            out.push(b + 32);
        } else {
            out.push(b);
        }
        i += 1;
    }
    proof {
        assert(out@ =~= spec_lower(s@));
    }
    out
}

/// One byte of ASCII whitespace.
fn is_space(b: u8) -> (r: bool)
    ensures
        r == is_space_byte(b),
{
    b == 32 || (9 <= b && b <= 13)
}

/// Trim ASCII whitespace from both ends.
pub fn trim_spaces(s: &[u8]) -> (r: Vec<u8>)
    ensures
        r@ == spec_trim_spaces_front(spec_trim_spaces_back(s@)),
{
    let n = s.len();
    let mut end = n;
    proof {
        assert(s@.subrange(0, end as int) =~= s@);
    }
    while end > 0 && is_space(s[end - 1])
        invariant
            0 <= end <= n,
            n == s@.len(),
            spec_trim_spaces_back(s@) == spec_trim_spaces_back(s@.subrange(0, end as int)),
        decreases end,
    {
        proof {
            assert(s@.subrange(0, end as int).drop_last() =~= s@.subrange(0, end - 1));
        }
        end -= 1;
    }
    proof {
        assert(spec_trim_spaces_back(s@.subrange(0, end as int)) == s@.subrange(0, end as int));
    }
    let ghost trimmed_back = s@.subrange(0, end as int);
    let mut start: usize = 0;
    while start < end && is_space(s[start])
        invariant
            0 <= start <= end <= n,
            n == s@.len(),
            trimmed_back == s@.subrange(0, end as int),
            spec_trim_spaces_front(trimmed_back) == spec_trim_spaces_front(
                s@.subrange(start as int, end as int),
            ),
        decreases end - start,
    {
        proof {
            assert(s@.subrange(start as int, end as int).drop_first() =~= s@.subrange(
                start + 1,
                end as int,
            ));
        }
        start += 1;
    }
    proof {
        assert(spec_trim_spaces_front(s@.subrange(start as int, end as int)) == s@.subrange(
            start as int,
            end as int,
        ));
    }
    crate::bytes::to_vec(vstd::slice::slice_subrange(s, start, end))
}

/// A wall-clock timestamp without a timezone, held as seconds relative to the
/// epoch of 1970-01-01 00:00:00 on that unspecified clock.
#[derive(Debug, PartialEq, Eq, Structural, Clone, Copy)]
pub struct NaiveDateTime {
    pub secs: i64,
}

impl NaiveDateTime {
    pub fn from_timestamp(secs: i64) -> (r: NaiveDateTime)
        ensures
            r.secs == secs,
    {
        NaiveDateTime { secs }
    }
}

impl Default for NaiveDateTime {
    /// The epoch itself, used where a dialect lists no time for an entry.
    fn default() -> (r: NaiveDateTime)
        ensures
            r.secs == 0,
    {
        NaiveDateTime { secs: 0 }
    }
}

/// One entry observed in a remote index page.
#[derive(Debug)]
pub struct ListItem {
    /// Absolute URL of the entry; ends with `/` iff the entry is a directory.
    pub url: String,
    /// Bare name of the entry, without a trailing `/`.
    pub name: String,
    pub type_: FileType,
    pub size: Option<FileSize>,
    /// Timestamp as rendered by the remote server, in the server's own clock.
    pub mtime: NaiveDateTime,
    /// When set, the freshness comparator treats local existence as enough.
    pub skip_check: bool,
}

impl ListItem {
    pub fn new(
        url: String,
        name: String,
        type_: FileType,
        size: Option<FileSize>,
        mtime: NaiveDateTime,
    ) -> (r: ListItem)
        ensures
            r.url == url,
            r.name == name,
            r.type_ == type_,
            r.size == size,
            r.mtime == mtime,
            r.skip_check == false,
    {
        ListItem { url, name, type_, size, mtime, skip_check: false }
    }
}

} // verus!
