//! The Debian `Packages` expander: a downloaded index named `Packages`
//! under a `dists` directory is parsed, the repository root is found by
//! popping path and URL together, and one task is yielded per package.

use vstd::prelude::*;

use crate::bytes::{bytes_to_string, eq_bytes, spec_rfind, spec_split, split_byte, str_to_bytes,
    string_to_bytes, text_bytes, texts_of, to_vec, views_of};
use crate::extensions::{ExtensionError, ExtensionPackage};
use crate::web::{joined_url, url_join, url_last_segment, url_last_segment_of, url_path,
    url_path_of, url_pop_segment, url_popped, url_push_empty_segment, url_pushed_empty};

verus! {

/// The name after the last slash of a path; the whole path when it has no
/// slash.
pub open spec fn spec_basename(p: Seq<u8>) -> Seq<u8> {
    let i = spec_rfind(p, 47);
    if i < 0 {
        p
    } else {
        p.subrange(i + 1, p.len() as int)
    }
}

/// The path with its last component removed: a bare name becomes empty, a
/// path directly under the root keeps the root slash, and the root itself
/// (or an empty path) cannot be popped.
pub open spec fn spec_path_pop(p: Seq<u8>) -> Option<Seq<u8>> {
    if p.len() == 0 || (p.len() == 1 && p[0] == 47) {
        None
    } else {
        let i = spec_rfind(p, 47);
        if i < 0 {
            Some(Seq::empty())
        } else if i == 0 {
            Some(seq![47u8])
        } else {
            Some(p.subrange(0, i))
        }
    }
}

/// A metadata file is a Debian package index when its basename is
/// `Packages` and some ancestor directory is named `dists`.
pub open spec fn spec_is_apt_package(p: Seq<u8>) -> bool {
    let comps = spec_split(p, 47);
    &&& comps.last() == text_bytes("Packages"@)
    &&& exists|i: int| 0 <= i < comps.len() - 1 && comps[i] == text_bytes("dists"@)
}

/// Whether the path names a Debian package index.
pub fn is_apt_package(p: &str) -> (r: bool)
    ensures
        r == spec_is_apt_package(text_bytes(p@)),
{
    let pb = str_to_bytes(p);
    let comps = split_byte(pb.as_slice(), 47);
    let ghost cv = spec_split(pb@, 47);
    let n = comps.len();
    let packages = str_to_bytes("Packages");
    let dists = str_to_bytes("dists");
    proof {
        assert(cv.last() == views_of(comps@).last());
    }
    if !eq_bytes(comps[n - 1].as_slice(), packages.as_slice()) {
        return false;
    }
    let mut i: usize = 0;
    while i < n - 1
        invariant
            0 <= i <= n - 1,
            n == comps@.len() >= 1,
            cv == views_of(comps@),
            cv == spec_split(text_bytes(p@), 47),
            cv.last() == text_bytes("Packages"@),
            forall|k: int| 0 <= k < i ==> cv[k] != text_bytes("dists"@),
            dists@ == text_bytes("dists"@),
        decreases n - 1 - i,
    {
        if eq_bytes(comps[i].as_slice(), dists.as_slice()) {
            assert(cv[i as int] == text_bytes("dists"@));
            return true;
        }
        i += 1;
    }
    false
}

/// Pop one step of the joint walk: the path loses its last component, the
/// relative path its last segment, and the URL its last path segment; the
/// walk fails at the path root, at the URL root, or on an exhausted relative
/// path.
pub open spec fn spec_pop3(path: Seq<u8>, rel: Seq<Seq<u8>>, url: Seq<u8>) -> Result<
    (Seq<u8>, Seq<Seq<u8>>, Seq<u8>),
    ExtensionError,
> {
    match spec_path_pop(path) {
        None => Err(ExtensionError::Root),
        Some(p2) => match url_path_of(url) {
            None => Err(ExtensionError::Root),
            Some(up) => if up == text_bytes("/"@) {
                Err(ExtensionError::Root)
            } else if rel.len() == 0 {
                Err(ExtensionError::Root)
            } else {
                match url_popped(url) {
                    None => Err(ExtensionError::Root),
                    Some(u2) => Ok((p2, rel.drop_last(), u2)),
                }
            },
        },
    }
}

/// The first pop of the walk, which drops the file name and touches no
/// relative segment.
pub open spec fn spec_pop2(path: Seq<u8>, url: Seq<u8>) -> Result<(Seq<u8>, Seq<u8>), ExtensionError> {
    match spec_path_pop(path) {
        None => Err(ExtensionError::Root),
        Some(p2) => match url_path_of(url) {
            None => Err(ExtensionError::Root),
            Some(up) => if up == text_bytes("/"@) {
                Err(ExtensionError::Root)
            } else {
                match url_popped(url) {
                    None => Err(ExtensionError::Root),
                    Some(u2) => Ok((p2, u2)),
                }
            },
        },
    }
}

/// The joint walk up from the directory of a `Packages` file: pop path,
/// relative path and URL together until both the directory and the URL
/// segment are named `dists`, then return what lies above it, with the URL
/// given a trailing slash.
pub open spec fn spec_debian_walk(path: Seq<u8>, rel: Seq<Seq<u8>>, url: Seq<u8>) -> Result<
    (Seq<u8>, Seq<Seq<u8>>, Seq<u8>),
    ExtensionError,
>
    decreases path.len(),
    via spec_debian_walk_decreases
{
    if spec_basename(path) == text_bytes("dists"@) && url_last_segment_of(url) == Some(
        text_bytes("dists"@),
    ) {
        match spec_pop3(path, rel, url) {
            Err(e) => Err(e),
            Ok((p2, r2, u2)) => match url_pushed_empty(u2) {
                None => Err(ExtensionError::Root),
                Some(u3) => Ok((p2, r2, u3)),
            },
        }
    } else {
        match spec_pop3(path, rel, url) {
            Err(e) => Err(e),
            Ok((p2, r2, u2)) => spec_debian_walk(p2, r2, u2),
        }
    }
}

/// A popped path is strictly shorter.
pub proof fn lemma_path_pop_shrinks(p: Seq<u8>)
    ensures
        spec_path_pop(p) matches Some(q) ==> q.len() < p.len(),
{
    crate::bytes::lemma_spec_rfind(p, 47);
}

#[via_fn]
proof fn spec_debian_walk_decreases(path: Seq<u8>, rel: Seq<Seq<u8>>, url: Seq<u8>) {
    lemma_path_pop_shrinks(path);
}

/// The repository root derived from the place of a `Packages` file: the
/// walk's result, once the file name itself has been popped.
pub open spec fn spec_debian_root(path: Seq<u8>, rel: Seq<Seq<u8>>, url: Seq<u8>) -> Result<
    (Seq<u8>, Seq<Seq<u8>>, Seq<u8>),
    ExtensionError,
> {
    match spec_pop2(path, url) {
        Err(e) => Err(e),
        Ok((p2, u2)) => spec_debian_walk(p2, rel, u2),
    }
}

/// The basename of a byte path.
pub(crate) fn basename_of(p: &[u8]) -> (r: Vec<u8>)
    ensures
        r@ == spec_basename(p@),
{
    proof {
        crate::bytes::lemma_spec_rfind(p@, 47);
    }
    let n = p.len();
    match crate::bytes::rfind_byte(p, 47) {
        None => to_vec(p),
        Some(i) => {
            proof {
                assert(spec_rfind(p@, 47) == i);
            }
            to_vec(vstd::slice::slice_subrange(p, i + 1, n))
        },
    }
}

/// Pop the last component of a byte path, per [`spec_path_pop`].
fn path_pop(p: &[u8]) -> (r: Option<Vec<u8>>)
    ensures
        match r {
            Some(p2) => spec_path_pop(p@) == Some(p2@),
            None => spec_path_pop(p@) is None,
        },
{
    let n = p.len();
    if n == 0 || (n == 1 && p[0] == 47) {
        return None;
    }
    proof {
        crate::bytes::lemma_spec_rfind(p@, 47);
    }
    match crate::bytes::rfind_byte(p, 47) {
        None => {
            let r: Vec<u8> = Vec::new();
            proof {
                assert(r@ =~= Seq::<u8>::empty());
            }
            Some(r)
        },
        Some(i) => {
            proof {
                assert(spec_rfind(p@, 47) == i);
            }
            if i == 0 {
                let mut r: Vec<u8> = Vec::new();
                r.push(47);
                proof {
                    assert(r@ =~= seq![47u8]);
                }
                Some(r)
            } else {
                Some(to_vec(vstd::slice::slice_subrange(p, 0, i)))
            }
        },
    }
}

/// Pop one joint step, per [`spec_pop3`].
fn pop3(path: Vec<u8>, rel: Vec<String>, url: String) -> (r: Result<
    (Vec<u8>, Vec<String>, String),
    ExtensionError,
>)
    ensures
        match r {
            Ok((p2, r2, u2)) => spec_pop3(path@, texts_of(rel@), text_bytes(url@)) == Ok::<
                (Seq<u8>, Seq<Seq<u8>>, Seq<u8>),
                ExtensionError,
            >((p2@, texts_of(r2@), text_bytes(u2@))) && p2@.len() < path@.len(),
            Err(e) => spec_pop3(path@, texts_of(rel@), text_bytes(url@)) == Err::<
                (Seq<u8>, Seq<Seq<u8>>, Seq<u8>),
                ExtensionError,
            >(e),
        },
{
    proof {
        lemma_path_pop_shrinks(path@);
    }
    let p2 = match path_pop(path.as_slice()) {
        Some(p2) => p2,
        None => {
            return Err(ExtensionError::Root);
        },
    };
    let up = match url_path(url.as_str()) {
        Some(up) => up,
        None => {
            return Err(ExtensionError::Root);
        },
    };
    let slash = str_to_bytes("/");
    let upb = string_to_bytes(&up);
    if eq_bytes(upb.as_slice(), slash.as_slice()) {
        return Err(ExtensionError::Root);
    }
    let mut rel = rel;
    let ghost rel_pre = rel@;
    if rel.len() == 0 {
        return Err(ExtensionError::Root);
    }
    rel.pop();
    proof {
        assert(texts_of(rel@) =~~= texts_of(rel_pre).drop_last());
    }
    let u2 = match url_pop_segment(url.as_str()) {
        Some(u2) => u2,
        None => {
            return Err(ExtensionError::Root);
        },
    };
    Ok((p2, rel, u2))
}

/// Walk up to the Debian root from the directory holding a `Packages`
/// file.  `packages_path` is the local path of the file, `relative` the
/// mirror-relative segments of its directory, and `packages_url` its remote
/// URL; the result is the local root, its relative segments and the root
/// URL with a trailing slash.
pub fn get_debian_root(packages_path: &str, relative: &Vec<String>, packages_url: &str) -> (r:
    Result<(String, Vec<String>, String), ExtensionError>)
    ensures
        ({
            let s = spec_debian_root(
                text_bytes(packages_path@),
                texts_of(relative@),
                text_bytes(packages_url@),
            );
            match r {
                Ok((p2, r2, u2)) => s == Ok::<(Seq<u8>, Seq<Seq<u8>>, Seq<u8>), ExtensionError>(
                    (text_bytes(p2@), texts_of(r2@), text_bytes(u2@)),
                ),
                Err(e) => match s {
                    Ok(t) => !vstd::utf8::valid_utf8(t.0) && e == ExtensionError::Archive,
                    Err(e2) => e == e2,
                },
            }
        }),
{
    let ghost target = spec_debian_root(
        text_bytes(packages_path@),
        texts_of(relative@),
        text_bytes(packages_url@),
    );
    let pb = str_to_bytes(packages_path);
    // first pop: drop the file name, leaving the relative path untouched
    let mut path = match path_pop(pb.as_slice()) {
        Some(p) => p,
        None => {
            return Err(ExtensionError::Root);
        },
    };
    let up0 = match url_path(packages_url) {
        Some(up) => up,
        None => {
            return Err(ExtensionError::Root);
        },
    };
    let slash = str_to_bytes("/");
    let upb0 = string_to_bytes(&up0);
    if eq_bytes(upb0.as_slice(), slash.as_slice()) {
        return Err(ExtensionError::Root);
    }
    let mut url = match url_pop_segment(packages_url) {
        Some(u) => u,
        None => {
            return Err(ExtensionError::Root);
        },
    };
    let mut rel: Vec<String> = Vec::new();
    let mut k: usize = 0;
    let rn = relative.len();
    while k < rn
        invariant
            0 <= k <= rn,
            rn == relative@.len(),
            rel@.len() == k,
            forall|j: int| 0 <= j < k ==> rel@[j]@ == relative@[j]@,
        decreases rn - k,
    {
        rel.push(relative[k].clone());
        k += 1;
    }
    proof {
        assert(texts_of(rel@) =~~= texts_of(relative@));
        assert(target == spec_debian_walk(path@, texts_of(rel@), text_bytes(url@)));
    }
    let dists = str_to_bytes("dists");
    loop
        invariant
            target == spec_debian_root(
                text_bytes(packages_path@),
                texts_of(relative@),
                text_bytes(packages_url@),
            ),
            target == spec_debian_walk(path@, texts_of(rel@), text_bytes(url@)),
            dists@ == text_bytes("dists"@),
        decreases path@.len(),
    {
        let base = basename_of(path.as_slice());
        let seg_matches: bool = match url_last_segment(url.as_str()) {
            Some(seg) => {
                let sb = string_to_bytes(&seg);
                eq_bytes(sb.as_slice(), dists.as_slice())
            },
            None => false,
        };
        if eq_bytes(base.as_slice(), dists.as_slice()) && seg_matches {
            let (p2, r2, u2) = match pop3(path, rel, url) {
                Ok(t) => t,
                Err(e) => {
                    return Err(e);
                },
            };
            let u3 = match url_push_empty_segment(u2.as_str()) {
                Some(u3) => u3,
                None => {
                    return Err(ExtensionError::Root);
                },
            };
            let ghost pv = p2@;
            let path_s = match bytes_to_string(p2) {
                Some(s) => s,
                None => {
                    // a popped prefix of real text is always a whole string
                    proof {
                        assert(!vstd::utf8::valid_utf8(pv));
                    }
                    return Err(ExtensionError::Archive);
                },
            };
            return Ok((path_s, r2, u3));
        }
        let (p2, r2, u2) = match pop3(path, rel, url) {
            Ok(t) => t,
            Err(e) => {
                return Err(e);
            },
        };
        path = p2;
        rel = r2;
        url = u2;
    }
}

/// The packages named by a Debian `Packages` index: each package's pool
/// path and byte size (wrapped into an unsigned count), as a bag, per
/// `apt_parser::Packages::from`: the crate hands the entries out in no
/// fixed order, so only the bag is a function of the data.
pub uninterp spec fn apt_packages_of(data: Seq<u8>) -> vstd::multiset::Multiset<(Seq<u8>, int)>;

/// The byte views of the extracted package pairs.
pub open spec fn pairs_of(vs: Seq<(String, usize)>) -> Seq<(Seq<u8>, int)> {
    Seq::new(vs.len(), |i: int| (text_bytes(vs[i].0@), vs[i].1 as int))
}

/// Relies on `apt_parser::Packages::from`: the pool path and size of each
/// package entry of the index, in an order of the crate's choosing.
#[verifier::external_body]
fn apt_packages(data: &str) -> (r: Vec<(String, usize)>)
    ensures
        pairs_of(r@).to_multiset() == apt_packages_of(text_bytes(data@)),
{
    apt_parser::Packages::from(data).map(|p| (p.filename, p.size as usize)).collect()
}

/// The ghost image of one Debian package task.
pub ghost struct SpecAptPackage {
    pub url: Seq<u8>,
    pub relative: Seq<Seq<u8>>,
    pub size: int,
    pub filename: Seq<u8>,
}

/// The task built from one package entry: its pool path is resolved against
/// the repository root URL and also split into the segments that extend the
/// root's relative path, the last segment being the file name.
pub open spec fn spec_apt_one(
    root_rel: Seq<Seq<u8>>,
    root_url: Seq<u8>,
    pool: Seq<u8>,
    size: int,
) -> Result<SpecAptPackage, ExtensionError> {
    match joined_url(root_url, pool) {
        None => Err(ExtensionError::Url),
        Some(u) => {
            let pieces = spec_split(pool, 47);
            if !(forall|i: int|
                0 <= i < pieces.len() ==> vstd::utf8::valid_utf8(#[trigger] pieces[i])) {
                Err(ExtensionError::Archive)
            } else {
                let all = root_rel + pieces;
                Ok(
                    SpecAptPackage {
                        url: u,
                        relative: all.drop_last(),
                        size: size,
                        filename: all.last(),
                    },
                )
            }
        },
    }
}

/// The tasks built from a whole index, in order; the first failure aborts.
pub open spec fn spec_apt_items(
    root_rel: Seq<Seq<u8>>,
    root_url: Seq<u8>,
    pkgs: Seq<(Seq<u8>, int)>,
) -> Result<Seq<SpecAptPackage>, ExtensionError>
    decreases pkgs.len(),
{
    if pkgs.len() == 0 {
        Ok(Seq::empty())
    } else {
        match spec_apt_one(root_rel, root_url, pkgs[0].0, pkgs[0].1) {
            Err(e) => Err(e),
            Ok(it) => match spec_apt_items(root_rel, root_url, pkgs.drop_first()) {
                Err(e) => Err(e),
                Ok(rest) => Ok(seq![it] + rest),
            },
        }
    }
}

/// The whole reading of a `Packages` file found at `path` with the given
/// mirror-relative directory and remote URL, for one ordering `pkgs` of the
/// index's package bag.
pub open spec fn spec_parse_package(
    path: Seq<u8>,
    rel: Seq<Seq<u8>>,
    url: Seq<u8>,
    pkgs: Seq<(Seq<u8>, int)>,
) -> Result<Seq<SpecAptPackage>, ExtensionError> {
    match spec_debian_root(path, rel, url) {
        Err(e) => Err(e),
        Ok((root_path, root_rel, root_url)) => if !vstd::utf8::valid_utf8(root_path) {
            Err(ExtensionError::Archive)
        } else {
            spec_apt_items(root_rel, root_url, pkgs)
        },
    }
}

/// The ghost images of a sequence of Debian package tasks.
pub open spec fn apt_packages_view(ps: Seq<AptPackage>) -> Seq<SpecAptPackage> {
    Seq::new(
        ps.len(),
        |i: int|
            SpecAptPackage {
                url: text_bytes(ps[i].url@),
                relative: texts_of(ps[i].relative@),
                size: ps[i].size as int,
                filename: text_bytes(ps[i].filename@),
            },
    )
}

/// Copy a vector of strings.
pub(crate) fn clone_string_vec(v: &Vec<String>) -> (r: Vec<String>)
    ensures
        texts_of(r@) == texts_of(v@),
        r@.len() == v@.len(),
{
    let n = v.len();
    let mut r: Vec<String> = Vec::new();
    let mut k: usize = 0;
    while k < n
        invariant
            0 <= k <= n,
            n == v@.len(),
            r@.len() == k,
            forall|j: int| 0 <= j < k ==> r@[j]@ == v@[j]@,
        decreases n - k,
    {
        r.push(v[k].clone());
        k += 1;
    }
    proof {
        assert(texts_of(r@) =~~= texts_of(v@));
    }
    r
}

/// Split a pool path into its segments as strings; `None` when a segment's
/// bytes are not a whole string (never for real text).
pub(crate) fn split_segments(pool: &String) -> (r: Option<Vec<String>>)
    ensures
        match r {
            Some(segs) => texts_of(segs@) == spec_split(text_bytes(pool@), 47) && segs@.len() >= 1,
            None => !(forall|i: int|
                0 <= i < spec_split(text_bytes(pool@), 47).len() ==> vstd::utf8::valid_utf8(
                    #[trigger] spec_split(text_bytes(pool@), 47)[i],
                )),
        },
{
    let pb = string_to_bytes(pool);
    let mut pieces = split_byte(pb.as_slice(), 47);
    let ghost pv = spec_split(text_bytes(pool@), 47);
    proof {
        assert(pv == views_of(pieces@));
    }
    let n = pieces.len();
    let mut segs: Vec<String> = Vec::new();
    let mut k: usize = 0;
    while k < n
        invariant
            0 <= k <= n,
            n == pieces@.len(),
            pv == views_of(pieces@),
            pv == spec_split(text_bytes(pool@), 47),
            segs@.len() == k,
            forall|j: int| 0 <= j < k ==> text_bytes(#[trigger] segs@[j]@) == pv[j],
        decreases n - k,
    {
        let piece = to_vec(pieces[k].as_slice());
        let ghost piv = piece@;
        match bytes_to_string(piece) {
            Some(s) => {
                segs.push(s);
            },
            None => {
                proof {
                    assert(!vstd::utf8::valid_utf8(pv[k as int]));
                }
                return None;
            },
        }
        k += 1;
    }
    proof {
        assert(texts_of(segs@) =~~= pv);
    }
    Some(segs)
}

/// Read the tasks out of a `Packages` file.  `packages_path` is the local
/// path of the file, `relative` the mirror-relative segments of its
/// directory, `packages_url` its remote URL, and `data` the file's text.
/// The result is the exact reading of the index's package bag in the order
/// the parsing crate chose.
pub fn parse_package(
    packages_path: &str,
    relative: &Vec<String>,
    packages_url: &str,
    data: &str,
) -> (r: Result<Vec<AptPackage>, ExtensionError>)
    ensures
        exists|pairs: Seq<(Seq<u8>, int)>|
            pairs.to_multiset() == apt_packages_of(text_bytes(data@)) && match r {
                Ok(pkgs) => #[trigger] spec_parse_package(
                    text_bytes(packages_path@),
                    texts_of(relative@),
                    text_bytes(packages_url@),
                    pairs,
                ) == Ok::<Seq<SpecAptPackage>, ExtensionError>(apt_packages_view(pkgs@)),
                Err(e) => spec_parse_package(
                    text_bytes(packages_path@),
                    texts_of(relative@),
                    text_bytes(packages_url@),
                    pairs,
                ) == Err::<Seq<SpecAptPackage>, ExtensionError>(e),
            },
{
    let pkgs = apt_packages(data);
    let ghost pkgs_v = pairs_of(pkgs@);
    let ghost s = spec_parse_package(
        text_bytes(packages_path@),
        texts_of(relative@),
        text_bytes(packages_url@),
        pkgs_v,
    );
    let (root_path, root_rel, root_url) = match get_debian_root(
        packages_path,
        relative,
        packages_url,
    ) {
        Ok(t) => t,
        Err(e) => {
            return Err(e);
        },
    };
    proof {
        vstd::utf8::encode_utf8_valid_utf8(root_path@);
    }
    proof {
        assert(pkgs_v.skip(0) =~= pkgs_v);
    }
    let ghost rrv = texts_of(root_rel@);
    let ghost ruv = text_bytes(root_url@);
    let n = pkgs.len();
    let mut res: Vec<AptPackage> = Vec::new();
    let mut i: usize = 0;
    proof {
        assert(apt_packages_view(res@) =~= Seq::<SpecAptPackage>::empty());
    }
    while i < n
        invariant
            0 <= i <= n,
            n == pkgs@.len(),
            pkgs_v == pairs_of(pkgs@),
            pkgs_v.to_multiset() == apt_packages_of(text_bytes(data@)),
            rrv == texts_of(root_rel@),
            ruv == text_bytes(root_url@),
            s == spec_parse_package(
                text_bytes(packages_path@),
                texts_of(relative@),
                text_bytes(packages_url@),
                pkgs_v,
            ),
            s == spec_apt_items(rrv, ruv, pkgs_v),
            spec_apt_items(rrv, ruv, pkgs_v) == match spec_apt_items(
                rrv,
                ruv,
                pkgs_v.skip(i as int),
            ) {
                Err(e) => Err::<Seq<SpecAptPackage>, ExtensionError>(e),
                Ok(rest) => Ok(apt_packages_view(res@) + rest),
            },
        decreases n - i,
    {
        let ghost pk = pkgs_v[i as int];
        proof {
            assert(pkgs_v.skip(i as int)[0] == pk);
            assert(pkgs_v.skip(i as int).drop_first() =~= pkgs_v.skip(i + 1));
            assert(text_bytes(pkgs@[i as int].0@) == pk.0);
            assert(pkgs@[i as int].1 as int == pk.1);
        }
        let pool = &pkgs[i].0;
        let url = match url_join(root_url.as_str(), pool.as_str()) {
            Some(u) => u,
            None => {
                return Err(ExtensionError::Url);
            },
        };
        let segs = match split_segments(pool) {
            Some(segs) => segs,
            None => {
                return Err(ExtensionError::Archive);
            },
        };
        proof {
            assert forall|j: int|
                0 <= j < spec_split(pk.0, 47).len() implies vstd::utf8::valid_utf8(
                #[trigger] spec_split(pk.0, 47)[j],
            ) by {
                assert(spec_split(pk.0, 47)[j] == text_bytes(segs@[j]@));
                vstd::utf8::encode_utf8_valid_utf8(segs@[j]@);
            }
        }
        let mut all = clone_string_vec(&root_rel);
        let ghost all_pre = all@;
        let sn = segs.len();
        let mut k: usize = 0;
        while k < sn
            invariant
                0 <= k <= sn,
                sn == segs@.len(),
                all@.len() == all_pre.len() + k,
                forall|j: int| 0 <= j < all_pre.len() ==> all@[j]@ == #[trigger] all_pre[j]@,
                forall|j: int|
                    0 <= j < k ==> all@[all_pre.len() + j]@ == #[trigger] segs@[j]@,
            decreases sn - k,
        {
            all.push(segs[k].clone());
            k += 1;
        }
        proof {
            assert(texts_of(all@) =~~= texts_of(all_pre) + texts_of(segs@));
        }
        let filename = match all.pop() {
            Some(f) => f,
            None => {
                proof {
                    // unreachable: the root segments plus a split are never empty
                    assert(false);
                }
                return Err(ExtensionError::Url);
            },
        };
        proof {
            assert(texts_of(all@) =~~= (texts_of(all_pre) + texts_of(segs@)).drop_last());
            assert(text_bytes(filename@) == (texts_of(all_pre) + texts_of(segs@)).last());
        }
        let pkg = AptPackage { url, relative: all, size: pkgs[i].1, filename };
        let ghost res_pre = res@;
        res.push(pkg);
        proof {
            assert(apt_packages_view(res@) =~~= apt_packages_view(res_pre).push(
                spec_apt_one(rrv, ruv, pk.0, pk.1)->Ok_0,
            ));
            assert(forall|rest: Seq<SpecAptPackage>|
                (apt_packages_view(res_pre).push(spec_apt_one(rrv, ruv, pk.0, pk.1)->Ok_0) + rest)
                    =~= apt_packages_view(res_pre) + (seq![
                spec_apt_one(rrv, ruv, pk.0, pk.1)->Ok_0,
            ] + rest));
        }
        i += 1;
    }
    proof {
        assert(pkgs_v.skip(n as int) =~= Seq::<(Seq<u8>, int)>::empty());
        assert(apt_packages_view(res@) + Seq::<SpecAptPackage>::empty() =~= apt_packages_view(
            res@,
        ));
    }
    Ok(res)
}

/// One package yielded by a Debian index.
#[derive(Debug)]
pub struct AptPackage {
    pub url: String,
    pub relative: Vec<String>,
    pub size: usize,
    pub filename: String,
}

impl From<AptPackage> for ExtensionPackage {
    fn from(val: AptPackage) -> (r: ExtensionPackage) {
        ExtensionPackage { url: val.url, relative: val.relative, filename: val.filename }
    }
}

impl vstd::std_specs::convert::FromSpecImpl<AptPackage> for ExtensionPackage {
    open spec fn obeys_from_spec() -> bool {
        true
    }

    open spec fn from_spec(val: AptPackage) -> ExtensionPackage {
        ExtensionPackage { url: val.url, relative: val.relative, filename: val.filename }
    }
}

} // verus!
