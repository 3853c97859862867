//! The exclusion policy engine with named-group expansion: beside the
//! expanded pattern each regex carries a wildcard twin, in which every
//! symbolic name becomes a catch-all group.  A path that matches the twin
//! but not the pattern names a sibling release that is not on the list, and
//! is stopped without being walked.

use vstd::prelude::*;

use crate::bytes::{is_prefix, str_to_bytes, string_to_bytes, text_bytes};
use crate::bytes::{bytes_to_string, lemma_text_bytes_len, replace_all, starts_with_bytes};
use crate::regex::spec_expand_step;

pub use crate::regex::Comparison;
use crate::rematch::{regex_matches, CompiledRegex};

verus! {

/// The expansion table applied to every pattern, in order: each symbolic
/// distribution name becomes a named alternative of its current releases.
pub open spec fn spec_expand(s: Seq<u8>) -> Seq<u8> {
    let s = spec_expand_step(s, "${DEBIAN_CURRENT}"@, "(?<distro_ver>buster|bullseye|bookworm)"@);
    let s = spec_expand_step(s, "${UBUNTU_LTS}"@, "(?<distro_ver>bionic|focal|jammy)"@);
    let s = spec_expand_step(s, "${UBUNTU_NONLTS}"@, "(?<distro_ver>lunar|mantic)"@);
    let s = spec_expand_step(s, "${FEDORA_CURRENT}"@, "(?<distro_ver>37|38|39|40)"@);
    let s = spec_expand_step(s, "${CENTOS_CURRENT}"@, "(?<distro_ver>7)"@);
    let s = spec_expand_step(s, "${RHEL_CURRENT}"@, "(?<distro_ver>7|8|9)"@);
    let s = spec_expand_step(s, "${OPENSUSE_CURRENT}"@, "(?<distro_ver>15.4|15.5)"@);
    s
}

/// The wildcard twin: the same names, in reverse table order, each replaced
/// by a catch-all named group.
pub open spec fn spec_expand_rev(s: Seq<u8>) -> Seq<u8> {
    let s = spec_expand_step(s, "${OPENSUSE_CURRENT}"@, "(?<distro_ver>.+)"@);
    let s = spec_expand_step(s, "${RHEL_CURRENT}"@, "(?<distro_ver>.+)"@);
    let s = spec_expand_step(s, "${CENTOS_CURRENT}"@, "(?<distro_ver>.+)"@);
    let s = spec_expand_step(s, "${FEDORA_CURRENT}"@, "(?<distro_ver>.+)"@);
    let s = spec_expand_step(s, "${UBUNTU_NONLTS}"@, "(?<distro_ver>.+)"@);
    let s = spec_expand_step(s, "${UBUNTU_LTS}"@, "(?<distro_ver>.+)"@);
    let s = spec_expand_step(s, "${DEBIAN_CURRENT}"@, "(?<distro_ver>.+)"@);
    s
}

/// Replace one symbolic name throughout `b`.
fn expand_step(b: &Vec<u8>, from: &str, to: &str) -> (r: Vec<u8>)
    requires
        from@.len() >= 1,
    ensures
        r@ == spec_expand_step(b@, from@, to@),
{
    proof {
        lemma_text_bytes_len(from@);
    }
    let fb = str_to_bytes(from);
    let tb = str_to_bytes(to);
    replace_all(b.as_slice(), fb.as_slice(), tb.as_slice())
}

/// A user pattern expanded twice: once with the release names, once with
/// catch-all groups in their place.
#[derive(Debug)]
pub struct ExpandedRegex {
    inner: CompiledRegex,
    rev_inner: CompiledRegex,
}

impl View for ExpandedRegex {
    type V = (Seq<u8>, Seq<u8>);

    /// The bytes of the expanded pattern and of its wildcard twin.
    closed spec fn view(&self) -> (Seq<u8>, Seq<u8>) {
        (self.inner@, self.rev_inner@)
    }
}

impl ExpandedRegex {
    /// Expand the symbolic names in `s` both ways and compile both; `None`
    /// when either expansion is not a valid regular expression (or, never
    /// for patterns over the table's ASCII names, not valid UTF-8).
    pub fn from_str(s: &str) -> (r: Option<ExpandedRegex>)
        ensures
            r matches Some(re) ==> re@ == (
                spec_expand(text_bytes(s@)),
                spec_expand_rev(text_bytes(s@)),
            ) && crate::rematch::regex_valid(spec_expand(text_bytes(s@)))
                && crate::rematch::regex_valid(spec_expand_rev(text_bytes(s@))),
            r is None ==> !crate::rematch::regex_valid(spec_expand(text_bytes(s@)))
                || !crate::rematch::regex_valid(spec_expand_rev(text_bytes(s@)))
                || !vstd::utf8::valid_utf8(spec_expand(text_bytes(s@)))
                || !vstd::utf8::valid_utf8(spec_expand_rev(text_bytes(s@))),
    {
        proof {
            reveal_strlit("${DEBIAN_CURRENT}");
            reveal_strlit("${UBUNTU_LTS}");
            reveal_strlit("${UBUNTU_NONLTS}");
            reveal_strlit("${FEDORA_CURRENT}");
            reveal_strlit("${CENTOS_CURRENT}");
            reveal_strlit("${RHEL_CURRENT}");
            reveal_strlit("${OPENSUSE_CURRENT}");
        }
        let b = str_to_bytes(s);
        let b1 = expand_step(&b, "${DEBIAN_CURRENT}", "(?<distro_ver>buster|bullseye|bookworm)");
        let b1 = expand_step(&b1, "${UBUNTU_LTS}", "(?<distro_ver>bionic|focal|jammy)");
        let b1 = expand_step(&b1, "${UBUNTU_NONLTS}", "(?<distro_ver>lunar|mantic)");
        let b1 = expand_step(&b1, "${FEDORA_CURRENT}", "(?<distro_ver>37|38|39|40)");
        let b1 = expand_step(&b1, "${CENTOS_CURRENT}", "(?<distro_ver>7)");
        let b1 = expand_step(&b1, "${RHEL_CURRENT}", "(?<distro_ver>7|8|9)");
        let b1 = expand_step(&b1, "${OPENSUSE_CURRENT}", "(?<distro_ver>15.4|15.5)");
        let b2 = expand_step(&b, "${OPENSUSE_CURRENT}", "(?<distro_ver>.+)");
        let b2 = expand_step(&b2, "${RHEL_CURRENT}", "(?<distro_ver>.+)");
        let b2 = expand_step(&b2, "${CENTOS_CURRENT}", "(?<distro_ver>.+)");
        let b2 = expand_step(&b2, "${FEDORA_CURRENT}", "(?<distro_ver>.+)");
        let b2 = expand_step(&b2, "${UBUNTU_NONLTS}", "(?<distro_ver>.+)");
        let b2 = expand_step(&b2, "${UBUNTU_LTS}", "(?<distro_ver>.+)");
        let b2 = expand_step(&b2, "${DEBIAN_CURRENT}", "(?<distro_ver>.+)");
        let t1 = match bytes_to_string(b1) {
            Some(t) => t,
            None => {
                return None;
            },
        };
        let t2 = match bytes_to_string(b2) {
            Some(t) => t,
            None => {
                return None;
            },
        };
        let inner = match CompiledRegex::compile(t1.as_str()) {
            Some(c) => c,
            None => {
                return None;
            },
        };
        let rev_inner = match CompiledRegex::compile(t2.as_str()) {
            Some(c) => c,
            None => {
                return None;
            },
        };
        Some(ExpandedRegex { inner, rev_inner })
    }

    /// Whether the expanded pattern matches somewhere in `text`.
    pub fn is_match(&self, text: &str) -> (r: bool)
        ensures
            r == regex_matches(self@.0, text_bytes(text@)),
    {
        self.inner.is_match(text)
    }

    /// Whether `text` fits the wildcard twin but not the pattern itself:
    /// the path names a sibling release that is not on the list.
    pub fn is_others_match(&self, text: &str) -> (r: bool)
        ensures
            r == (!regex_matches(self@.0, text_bytes(text@)) && regex_matches(
                self@.1,
                text_bytes(text@),
            )),
    {
        !self.inner.is_match(text) && self.rev_inner.is_match(text)
    }

    /// The expanded pattern text.
    pub fn as_source(&self) -> (r: &String)
        ensures
            text_bytes(r@) == self@.0,
    {
        self.inner.as_source()
    }
}

/// The pattern pairs of a sequence of regexes.
pub open spec fn pats_of(v: Seq<ExpandedRegex>) -> Seq<(Seq<u8>, Seq<u8>)> {
    Seq::new(v.len(), |i: int| v[i]@)
}

/// Some pattern in the bag matches the text.
pub open spec fn spec_any_match(pats: Seq<(Seq<u8>, Seq<u8>)>, text: Seq<u8>) -> bool {
    exists|i: int| 0 <= i < pats.len() && regex_matches(pats[i].0, text)
}

/// Some pattern's wildcard twin matches where the pattern itself does not.
pub open spec fn spec_any_others_match(pats: Seq<(Seq<u8>, Seq<u8>)>, text: Seq<u8>) -> bool {
    exists|i: int|
        0 <= i < pats.len() && !regex_matches(pats[i].0, text) && regex_matches(pats[i].1, text)
}

/// An exclusion pattern is kept as list-only when some inclusion pattern
/// extends it: the directory must still be walked to reach the inclusion.
pub open spec fn spec_is_list_only(p: (Seq<u8>, Seq<u8>), includes: Seq<(Seq<u8>, Seq<u8>)>) -> bool {
    exists|i: int| 0 <= i < includes.len() && is_prefix(p.0, includes[i].0)
}

/// The exclusions that stop a task outright.
pub open spec fn spec_stop_partition(
    excl: Seq<(Seq<u8>, Seq<u8>)>,
    incl: Seq<(Seq<u8>, Seq<u8>)>,
) -> Seq<(Seq<u8>, Seq<u8>)> {
    excl.filter(|p: (Seq<u8>, Seq<u8>)| !spec_is_list_only(p, incl))
}

/// The exclusions that only suppress downloads.
pub open spec fn spec_list_only_partition(
    excl: Seq<(Seq<u8>, Seq<u8>)>,
    incl: Seq<(Seq<u8>, Seq<u8>)>,
) -> Seq<(Seq<u8>, Seq<u8>)> {
    excl.filter(|p: (Seq<u8>, Seq<u8>)| spec_is_list_only(p, incl))
}

/// The verdict on a path: an inclusion match wins, then an instant stop,
/// then the sibling-release shortcut, then list-only; an untouched path is
/// allowed.
pub open spec fn spec_match_str(
    includes: Seq<(Seq<u8>, Seq<u8>)>,
    stops: Seq<(Seq<u8>, Seq<u8>)>,
    list_onlys: Seq<(Seq<u8>, Seq<u8>)>,
    text: Seq<u8>,
) -> Comparison {
    if spec_any_match(includes, text) {
        Comparison::Allow
    } else if spec_any_match(stops, text) {
        Comparison::Stop
    } else if spec_any_others_match(includes, text) {
        Comparison::Stop
    } else if spec_any_match(list_onlys, text) {
        Comparison::ListOnly
    } else {
        Comparison::Allow
    }
}

/// Whether any pattern in `v` matches `text`.
fn any_match(v: &Vec<ExpandedRegex>, text: &str) -> (r: bool)
    ensures
        r == spec_any_match(pats_of(v@), text_bytes(text@)),
{
    let n = v.len();
    let mut j: usize = 0;
    while j < n
        invariant
            0 <= j <= n,
            n == v@.len(),
            forall|k: int| 0 <= k < j ==> !regex_matches(pats_of(v@)[k].0, text_bytes(text@)),
        decreases n - j,
    {
        if v[j].is_match(text) {
            assert(regex_matches(pats_of(v@)[j as int].0, text_bytes(text@)));
            return true;
        }
        j += 1;
    }
    false
}

/// Whether any pattern's wildcard twin matches where the pattern does not.
fn any_others_match(v: &Vec<ExpandedRegex>, text: &str) -> (r: bool)
    ensures
        r == spec_any_others_match(pats_of(v@), text_bytes(text@)),
{
    let n = v.len();
    let mut j: usize = 0;
    while j < n
        invariant
            0 <= j <= n,
            n == v@.len(),
            forall|k: int|
                0 <= k < j ==> !(!regex_matches(pats_of(v@)[k].0, text_bytes(text@))
                    && regex_matches(pats_of(v@)[k].1, text_bytes(text@))),
        decreases n - j,
    {
        if v[j].is_others_match(text) {
            assert(!regex_matches(pats_of(v@)[j as int].0, text_bytes(text@)) && regex_matches(
                pats_of(v@)[j as int].1,
                text_bytes(text@),
            ));
            return true;
        }
        j += 1;
    }
    false
}

/// The engine: ordered bags of instant-stop, list-only and inclusion
/// patterns.
#[derive(Debug)]
pub struct ExclusionManager {
    /// Stop the task immediately if any of these match.
    instant_stop_regexes: Vec<ExpandedRegex>,
    /// Walk the directory but do not download if any of these match.
    list_only_regexes: Vec<ExpandedRegex>,
    /// Paths matching any of these are wanted.
    include_regexes: Vec<ExpandedRegex>,
}

impl ExclusionManager {
    pub closed spec fn stop_pats(&self) -> Seq<(Seq<u8>, Seq<u8>)> {
        pats_of(self.instant_stop_regexes@)
    }

    pub closed spec fn list_only_pats(&self) -> Seq<(Seq<u8>, Seq<u8>)> {
        pats_of(self.list_only_regexes@)
    }

    pub closed spec fn include_pats(&self) -> Seq<(Seq<u8>, Seq<u8>)> {
        pats_of(self.include_regexes@)
    }

    /// Whether one exclusion pattern is a prefix of some inclusion pattern.
    fn prefixes_some_inclusion(e: &ExpandedRegex, inclusions: &Vec<ExpandedRegex>) -> (r: bool)
        ensures
            r == spec_is_list_only(e@, pats_of(inclusions@)),
    {
        let eb = string_to_bytes(e.as_source());
        let n = inclusions.len();
        let mut j: usize = 0;
        while j < n
            invariant
                0 <= j <= n,
                n == inclusions@.len(),
                eb@ == e@.0,
                forall|k: int| 0 <= k < j ==> !is_prefix(e@.0, pats_of(inclusions@)[k].0),
            decreases n - j,
        {
            let ib = string_to_bytes(inclusions[j].as_source());
            if starts_with_bytes(ib.as_slice(), eb.as_slice()) {
                assert(is_prefix(e@.0, pats_of(inclusions@)[j as int].0));
                return true;
            }
            assert(!is_prefix(e@.0, pats_of(inclusions@)[j as int].0));
            j += 1;
        }
        false
    }

    /// Partition the exclusions: one whose pattern prefixes some inclusion
    /// pattern becomes list-only, the rest stop instantly; inclusions are
    /// kept as given.
    pub fn new(exclusions: Vec<ExpandedRegex>, inclusions: Vec<ExpandedRegex>) -> (r:
        ExclusionManager)
        ensures
            r.include_pats() == pats_of(inclusions@),
            r.stop_pats() == spec_stop_partition(pats_of(exclusions@), pats_of(inclusions@)),
            r.list_only_pats() == spec_list_only_partition(
                pats_of(exclusions@),
                pats_of(inclusions@),
            ),
    {
        let ghost orig = exclusions@;
        let ghost incl = pats_of(inclusions@);
        let mut exclusions = exclusions;
        let mut instant_stop_regexes: Vec<ExpandedRegex> = Vec::new();
        let mut list_only_regexes: Vec<ExpandedRegex> = Vec::new();
        let mut i: usize = 0;
        let n0 = exclusions.len();
        proof {
            assert(orig.len() == n0 as int);
            assert(pats_of(orig.take(0)) =~= Seq::<(Seq<u8>, Seq<u8>)>::empty());
            assert(spec_stop_partition(pats_of(orig.take(0)), incl) =~= Seq::<
                (Seq<u8>, Seq<u8>),
            >::empty());
            assert(spec_list_only_partition(pats_of(orig.take(0)), incl) =~= Seq::<
                (Seq<u8>, Seq<u8>),
            >::empty());
            assert(pats_of(instant_stop_regexes@) =~= Seq::<(Seq<u8>, Seq<u8>)>::empty());
            assert(pats_of(list_only_regexes@) =~= Seq::<(Seq<u8>, Seq<u8>)>::empty());
        }
        while exclusions.len() > 0
            invariant
                0 <= i <= orig.len() <= usize::MAX,
                exclusions@ == orig.skip(i as int),
                pats_of(instant_stop_regexes@) == spec_stop_partition(
                    pats_of(orig.take(i as int)),
                    incl,
                ),
                pats_of(list_only_regexes@) == spec_list_only_partition(
                    pats_of(orig.take(i as int)),
                    incl,
                ),
                incl == pats_of(inclusions@),
            decreases exclusions@.len(),
        {
            let e = exclusions.remove(0);
            proof {
                assert(e == orig[i as int]);
                assert(exclusions@ =~= orig.skip(i + 1));
                assert(pats_of(orig.take(i + 1)).drop_last() =~= pats_of(orig.take(i as int)));
                assert(pats_of(orig.take(i + 1)).last() == e@);
                lemma_partition_step(pats_of(orig.take(i + 1)), incl);
            }
            if Self::prefixes_some_inclusion(&e, &inclusions) {
                list_only_regexes.push(e);
                proof {
                    assert(pats_of(list_only_regexes@) =~= pats_of(
                        list_only_regexes@.drop_last(),
                    ).push(e@));
                }
            } else {
                instant_stop_regexes.push(e);
                proof {
                    assert(pats_of(instant_stop_regexes@) =~= pats_of(
                        instant_stop_regexes@.drop_last(),
                    ).push(e@));
                }
            }
            i += 1;
        }
        proof {
            assert(orig.take(orig.len() as int) =~= orig);
        }
        ExclusionManager { instant_stop_regexes, list_only_regexes, include_regexes: inclusions }
    }

    /// The verdict of the engine on one path string.
    pub fn match_str(&self, text: &str) -> (r: Comparison)
        ensures
            r == spec_match_str(
                self.include_pats(),
                self.stop_pats(),
                self.list_only_pats(),
                text_bytes(text@),
            ),
    {
        if any_match(&self.include_regexes, text) {
            return Comparison::Allow;
        }
        if any_match(&self.instant_stop_regexes, text) {
            return Comparison::Stop;
        }
        // A path that fits an inclusion only under a release not on the
        // list names a sibling version: stop before walking it.
        if any_others_match(&self.include_regexes, text) {
            return Comparison::Stop;
        }
        if any_match(&self.list_only_regexes, text) {
            return Comparison::ListOnly;
        }
        Comparison::Allow
    }
}

/// Unfold one step of both partitions: the last exclusion goes to exactly
/// one side, according to whether it prefixes an inclusion.
proof fn lemma_partition_step(excl: Seq<(Seq<u8>, Seq<u8>)>, incl: Seq<(Seq<u8>, Seq<u8>)>)
    requires
        excl.len() >= 1,
    ensures
        spec_is_list_only(excl.last(), incl) ==> spec_stop_partition(excl, incl)
            == spec_stop_partition(excl.drop_last(), incl) && spec_list_only_partition(excl, incl)
            == spec_list_only_partition(excl.drop_last(), incl).push(excl.last()),
        !spec_is_list_only(excl.last(), incl) ==> spec_stop_partition(excl, incl)
            == spec_stop_partition(excl.drop_last(), incl).push(excl.last())
            && spec_list_only_partition(excl, incl) == spec_list_only_partition(
            excl.drop_last(),
            incl,
        ),
{
    reveal_with_fuel(Seq::filter, 2);
}

} // verus!
