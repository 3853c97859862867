//! The RPM `primary.xml.gz` expander: the compressed metadata is unpacked,
//! each package location is read out, and one task is yielded per package
//! against a base URL two segments above the metadata file.

use vstd::prelude::*;

use crate::bytes::{bytes_to_string, occurs_at, spec_split, split_byte, str_to_bytes,
    string_to_bytes, text_bytes, texts_of, to_vec};
use crate::extensions::apt::{basename_of, clone_string_vec, split_segments};
use crate::extensions::{ExtensionError, SpecPackage};
use crate::rematch::{regex_captures_of, regex_valid, CompiledRegex};
use crate::web::{joined_url, url_join, url_pop_segment, url_popped, url_push_empty_segment,
    url_pushed_empty};

verus! {

/// A metadata file is an RPM primary index when its basename ends with
/// `primary.xml.gz`.
pub open spec fn spec_is_yum_primary_xml(p: Seq<u8>) -> bool {
    let b = crate::extensions::apt::spec_basename(p);
    let pat = text_bytes("primary.xml.gz"@);
    occurs_at(b, pat, b.len() - pat.len())
}

/// Whether the path names an RPM primary index.
pub fn is_yum_primary_xml(p: &str) -> (r: bool)
    ensures
        r == spec_is_yum_primary_xml(text_bytes(p@)),
{
    let pb = str_to_bytes(p);
    let base = basename_of(pb.as_slice());
    let pat = str_to_bytes("primary.xml.gz");
    crate::bytes::ends_with_bytes(base.as_slice(), pat.as_slice())
}

/// The text inside a gzip archive, per `flate2::read::GzDecoder` followed by
/// `read_to_string`; `None` when the data is not a gzip stream of text.
pub uninterp spec fn gunzipped(data: Seq<u8>) -> Option<Seq<u8>>;

/// Relies on `flate2::read::GzDecoder` and `std::io::Read::read_to_string`:
/// unpack a gzip stream into text.
#[verifier::external_body]
fn gunzip_to_string(data: &[u8]) -> (r: Option<String>)
    ensures
        match r {
            Some(s) => gunzipped(data@) == Some(text_bytes(s@)),
            None => gunzipped(data@) is None,
        },
{
    let mut gzd = flate2::read::GzDecoder::new(data);
    let mut s = String::new();
    std::io::Read::read_to_string(&mut gzd, &mut s).ok()?;
    Some(s)
}

/// The pattern that reads one package location element.
pub open spec fn location_pattern() -> Seq<u8> {
    text_bytes("<location href=\"(.+?)\".*/>"@)
}

/// The locations read from the unpacked text, line by line: a line that is
/// whole text and matches the location pattern contributes its first group.
pub open spec fn spec_locations(lines: Seq<Seq<u8>>, pat: Seq<u8>) -> Seq<Seq<u8>>
    decreases lines.len(),
{
    if lines.len() == 0 {
        Seq::empty()
    } else {
        let rest = spec_locations(lines.drop_first(), pat);
        if vstd::utf8::valid_utf8(lines[0]) {
            match regex_captures_of(pat, lines[0]) {
                Some(g) => if g.len() >= 2 {
                    seq![g[1]] + rest
                } else {
                    rest
                },
                None => rest,
            }
        } else {
            rest
        }
    }
}

/// The whole reading of a `primary.xml.gz` file: unpack, then collect the
/// location of every package.
pub open spec fn spec_read_primary(data: Seq<u8>) -> Result<Seq<Seq<u8>>, ExtensionError> {
    match gunzipped(data) {
        None => Err(ExtensionError::Archive),
        Some(text) => if !regex_valid(location_pattern()) {
            Err(ExtensionError::Pattern)
        } else {
            Ok(spec_locations(spec_split(text, 10), location_pattern()))
        },
    }
}

/// Read the package locations out of a compressed primary index.
pub fn read_primary_xml(data: &[u8]) -> (r: Result<Vec<String>, ExtensionError>)
    ensures
        match r {
            Ok(urls) => spec_read_primary(data@) == Ok::<Seq<Seq<u8>>, ExtensionError>(
                texts_of(urls@),
            ),
            Err(e) => spec_read_primary(data@) == Err::<Seq<Seq<u8>>, ExtensionError>(e),
        },
{
    let text = match gunzip_to_string(data) {
        Some(t) => t,
        None => {
            return Err(ExtensionError::Archive);
        },
    };
    let re = match CompiledRegex::compile("<location href=\"(.+?)\".*/>") {
        Some(re) => re,
        None => {
            return Err(ExtensionError::Pattern);
        },
    };
    let ghost pat = re@;
    let tb = string_to_bytes(&text);
    let lines = split_byte(tb.as_slice(), 10);
    let ghost lines_v = spec_split(text_bytes(text@), 10);
    proof {
        assert(lines_v == crate::bytes::views_of(lines@));
        assert(lines_v.skip(0) =~= lines_v);
    }
    let n = lines.len();
    let mut urls: Vec<String> = Vec::new();
    let mut i: usize = 0;
    proof {
        assert(texts_of(urls@) =~= Seq::<Seq<u8>>::empty());
    }
    while i < n
        invariant
            0 <= i <= n,
            n == lines@.len(),
            lines_v == crate::bytes::views_of(lines@),
            pat == re@,
            pat == location_pattern(),
            spec_locations(lines_v, pat) == texts_of(urls@) + spec_locations(
                lines_v.skip(i as int),
                pat,
            ),
        decreases n - i,
    {
        let ghost line = lines_v[i as int];
        proof {
            assert(lines_v.skip(i as int)[0] == line);
            assert(lines_v.skip(i as int).drop_first() =~= lines_v.skip(i + 1));
        }
        let lb = to_vec(lines[i].as_slice());
        let ghost lbv = lb@;
        match bytes_to_string(lb) {
            None => {
                proof {
                    assert(!vstd::utf8::valid_utf8(lbv));
                    assert(spec_locations(lines_v.skip(i as int), pat) == spec_locations(
                        lines_v.skip(i + 1),
                        pat,
                    ));
                }
            },
            Some(line_s) => {
                proof {
                    vstd::utf8::encode_utf8_valid_utf8(line_s@);
                }
                match re.captures(line_s.as_str()) {
                    None => {
                        proof {
                            assert(spec_locations(lines_v.skip(i as int), pat) == spec_locations(
                                lines_v.skip(i + 1),
                                pat,
                            ));
                        }
                    },
                    Some(groups) => {
                        if groups.len() >= 2 {
                            proof {
                                assert(texts_of(groups@)[1] == text_bytes(groups@[1]@));
                            }
                            let ghost urls_pre = urls@;
                            urls.push(groups[1].clone());
                            proof {
                                assert(texts_of(urls@) =~~= texts_of(urls_pre) + seq![
                                    text_bytes(groups@[1]@),
                                ]);
                                assert((texts_of(urls_pre) + seq![text_bytes(groups@[1]@)])
                                    + spec_locations(lines_v.skip(i + 1), pat) =~= texts_of(
                                    urls_pre,
                                ) + (seq![text_bytes(groups@[1]@)] + spec_locations(
                                    lines_v.skip(i + 1),
                                    pat,
                                )));
                            }
                        } else {
                            proof {
                                assert(spec_locations(lines_v.skip(i as int), pat)
                                    == spec_locations(lines_v.skip(i + 1), pat));
                            }
                        }
                    },
                }
            },
        }
        i += 1;
    }
    proof {
        assert(lines_v.skip(n as int) =~= Seq::<Seq<u8>>::empty());
        assert(texts_of(urls@) + Seq::<Seq<u8>>::empty() =~= texts_of(urls@));
    }
    Ok(urls)
}

/// One package yielded by an RPM primary index.
#[derive(Debug)]
pub struct YumPackage {
    pub url: String,
    pub relative: Vec<String>,
    pub filename: String,
}

/// The ghost images of a sequence of RPM package tasks.
pub open spec fn yum_packages_view(ps: Seq<YumPackage>) -> Seq<SpecPackage> {
    Seq::new(
        ps.len(),
        |i: int|
            SpecPackage {
                url: text_bytes(ps[i].url@),
                relative: texts_of(ps[i].relative@),
                filename: text_bytes(ps[i].filename@),
            },
    )
}

/// The base URL of the packages: the metadata URL less two path segments,
/// with a trailing slash.
pub open spec fn spec_yum_base(url: Seq<u8>) -> Option<Seq<u8>> {
    match url_popped(url) {
        None => None,
        Some(u1) => match url_popped(u1) {
            None => None,
            Some(u2) => url_pushed_empty(u2),
        },
    }
}

/// The task built from one package location.
pub open spec fn spec_yum_one(rel: Seq<Seq<u8>>, base: Seq<u8>, pkg: Seq<u8>) -> Result<
    SpecPackage,
    ExtensionError,
> {
    match joined_url(base, pkg) {
        None => Err(ExtensionError::Url),
        Some(u) => {
            let pieces = spec_split(pkg, 47);
            if !(forall|i: int|
                0 <= i < pieces.len() ==> vstd::utf8::valid_utf8(#[trigger] pieces[i])) {
                Err(ExtensionError::Archive)
            } else {
                let all = rel + pieces;
                Ok(SpecPackage { url: u, relative: all.drop_last(), filename: all.last() })
            }
        },
    }
}

/// The tasks built from every location, in order; the first failure aborts.
pub open spec fn spec_yum_items(rel: Seq<Seq<u8>>, base: Seq<u8>, pkgs: Seq<Seq<u8>>) -> Result<
    Seq<SpecPackage>,
    ExtensionError,
>
    decreases pkgs.len(),
{
    if pkgs.len() == 0 {
        Ok(Seq::empty())
    } else {
        match spec_yum_one(rel, base, pkgs[0]) {
            Err(e) => Err(e),
            Ok(it) => match spec_yum_items(rel, base, pkgs.drop_first()) {
                Err(e) => Err(e),
                Ok(rest) => Ok(seq![it] + rest),
            },
        }
    }
}

/// The whole reading of a primary index found with the given relative
/// directory and remote URL: the innermost relative segment (the metadata
/// directory) is dropped, the base URL derived, and one task built per
/// location.
pub open spec fn spec_parse_package(rel: Seq<Seq<u8>>, url: Seq<u8>, data: Seq<u8>) -> Result<
    Seq<SpecPackage>,
    ExtensionError,
> {
    match spec_read_primary(data) {
        Err(e) => Err(e),
        Ok(pkgs) => {
            let rel2 = if rel.len() > 0 {
                rel.drop_last()
            } else {
                rel
            };
            match spec_yum_base(url) {
                None => Err(ExtensionError::Root),
                Some(base) => spec_yum_items(rel2, base, pkgs),
            }
        },
    }
}

/// Read the tasks out of a primary index.  `relative` holds the
/// mirror-relative segments of the metadata directory, `packages_url` the
/// index's remote URL, and `data` the compressed bytes.
pub fn parse_package(relative: &Vec<String>, packages_url: &str, data: &[u8]) -> (r: Result<
    Vec<YumPackage>,
    ExtensionError,
>)
    ensures
        ({
            let s = spec_parse_package(texts_of(relative@), text_bytes(packages_url@), data@);
            match r {
                Ok(pkgs) => s == Ok::<Seq<SpecPackage>, ExtensionError>(yum_packages_view(pkgs@)),
                Err(e) => s == Err::<Seq<SpecPackage>, ExtensionError>(e),
            }
        }),
{
    let ghost s = spec_parse_package(texts_of(relative@), text_bytes(packages_url@), data@);
    let pkgs = match read_primary_xml(data) {
        Ok(p) => p,
        Err(e) => {
            return Err(e);
        },
    };
    let mut rel = clone_string_vec(relative);
    let ghost rel_pre = rel@;
    if rel.len() > 0 {
        rel.pop();
        proof {
            assert(texts_of(rel@) =~~= texts_of(rel_pre).drop_last());
        }
    }
    let u1 = match url_pop_segment(packages_url) {
        Some(u) => u,
        None => {
            return Err(ExtensionError::Root);
        },
    };
    let u2 = match url_pop_segment(u1.as_str()) {
        Some(u) => u,
        None => {
            return Err(ExtensionError::Root);
        },
    };
    let base = match url_push_empty_segment(u2.as_str()) {
        Some(u) => u,
        None => {
            return Err(ExtensionError::Root);
        },
    };
    let ghost relv = texts_of(rel@);
    let ghost basev = text_bytes(base@);
    let ghost pkgs_v = texts_of(pkgs@);
    proof {
        assert(pkgs_v.skip(0) =~= pkgs_v);
    }
    let n = pkgs.len();
    let mut res: Vec<YumPackage> = Vec::new();
    let mut i: usize = 0;
    proof {
        assert(yum_packages_view(res@) =~= Seq::<SpecPackage>::empty());
    }
    while i < n
        invariant
            0 <= i <= n,
            n == pkgs@.len(),
            pkgs_v == texts_of(pkgs@),
            relv == texts_of(rel@),
            basev == text_bytes(base@),
            s == spec_parse_package(texts_of(relative@), text_bytes(packages_url@), data@),
            s == spec_yum_items(relv, basev, pkgs_v),
            spec_yum_items(relv, basev, pkgs_v) == match spec_yum_items(
                relv,
                basev,
                pkgs_v.skip(i as int),
            ) {
                Err(e) => Err::<Seq<SpecPackage>, ExtensionError>(e),
                Ok(rest) => Ok(yum_packages_view(res@) + rest),
            },
        decreases n - i,
    {
        let ghost pk = pkgs_v[i as int];
        proof {
            assert(pkgs_v.skip(i as int)[0] == pk);
            assert(pkgs_v.skip(i as int).drop_first() =~= pkgs_v.skip(i + 1));
            assert(text_bytes(pkgs@[i as int]@) == pk);
        }
        let pkg = &pkgs[i];
        let url = match url_join(base.as_str(), pkg.as_str()) {
            Some(u) => u,
            None => {
                return Err(ExtensionError::Url);
            },
        };
        let segs = match split_segments(pkg) {
            Some(segs) => segs,
            None => {
                return Err(ExtensionError::Archive);
            },
        };
        proof {
            assert forall|j: int|
                0 <= j < spec_split(pk, 47).len() implies vstd::utf8::valid_utf8(
                #[trigger] spec_split(pk, 47)[j],
            ) by {
                assert(spec_split(pk, 47)[j] == text_bytes(segs@[j]@));
                vstd::utf8::encode_utf8_valid_utf8(segs@[j]@);
            }
        }
        let mut all = clone_string_vec(&rel);
        let ghost all_pre = all@;
        let sn = segs.len();
        let mut k: usize = 0;
        while k < sn
            invariant
                0 <= k <= sn,
                sn == segs@.len(),
                all@.len() == all_pre.len() + k,
                forall|j: int| 0 <= j < all_pre.len() ==> all@[j]@ == #[trigger] all_pre[j]@,
                forall|j: int| 0 <= j < k ==> all@[all_pre.len() + j]@ == #[trigger] segs@[j]@,
            decreases sn - k,
        {
            all.push(segs[k].clone());
            k += 1;
        }
        proof {
            assert(texts_of(all@) =~~= texts_of(all_pre) + texts_of(segs@));
        }
        let filename = match all.pop() {
            Some(f) => f,
            None => {
                proof {
                    // unreachable: the segments plus a split are never empty
                    assert(false);
                }
                return Err(ExtensionError::Url);
            },
        };
        proof {
            assert(texts_of(all@) =~~= (texts_of(all_pre) + texts_of(segs@)).drop_last());
            assert(text_bytes(filename@) == (texts_of(all_pre) + texts_of(segs@)).last());
        }
        let out = YumPackage { url, relative: all, filename };
        let ghost res_pre = res@;
        res.push(out);
        proof {
            assert(yum_packages_view(res@) =~~= yum_packages_view(res_pre).push(
                spec_yum_one(relv, basev, pk)->Ok_0,
            ));
            assert(forall|rest: Seq<SpecPackage>|
                (yum_packages_view(res_pre).push(spec_yum_one(relv, basev, pk)->Ok_0) + rest)
                    =~= yum_packages_view(res_pre) + (seq![spec_yum_one(relv, basev, pk)->Ok_0]
                    + rest));
        }
        i += 1;
    }
    proof {
        assert(pkgs_v.skip(n as int) =~= Seq::<Seq<u8>>::empty());
        assert(yum_packages_view(res@) + Seq::<SpecPackage>::empty() =~= yum_packages_view(res@));
    }
    Ok(res)
}

} // verus!
