//! Repository-format expanders: after a successful download the file is
//! offered to each enabled expander, which may yield further download tasks.
//! Failures here are additive only and never fail the parent task.

use vstd::prelude::*;

use crate::bytes::text_bytes;

pub mod apt;
pub mod yum;

verus! {

/// Why an expander could not read a metadata file.
#[derive(Debug, PartialEq, Eq, Structural, Clone, Copy)]
pub enum ExtensionError {
    /// The file's encoding or compression could not be read.
    Archive,
    /// The location pattern could not be compiled.
    Pattern,
    /// The repository root could not be derived from the file's place.
    Root,
    /// A package's reference could not be resolved.
    Url,
}

/// One download task yielded by an expander.
#[derive(Debug)]
pub struct ExtensionPackage {
    pub url: String,
    pub relative: Vec<String>,
    pub filename: String,
}

/// The ghost image of one yielded task.
pub ghost struct SpecPackage {
    pub url: Seq<u8>,
    pub relative: Seq<Seq<u8>>,
    pub filename: Seq<u8>,
}

/// The ghost image of one executable task.
pub open spec fn package_view(p: ExtensionPackage) -> SpecPackage {
    SpecPackage {
        url: text_bytes(p.url@),
        relative: crate::bytes::texts_of(p.relative@),
        filename: text_bytes(p.filename@),
    }
}

/// The ghost images of a sequence of yielded tasks.
pub open spec fn packages_view(ps: Seq<ExtensionPackage>) -> Seq<SpecPackage> {
    Seq::new(ps.len(), |i: int| package_view(ps[i]))
}

/// Debian package tasks reduced to plain download tasks.
pub open spec fn apt_to_packages(ps: Seq<apt::SpecAptPackage>) -> Seq<SpecPackage> {
    Seq::new(
        ps.len(),
        |i: int|
            SpecPackage { url: ps[i].url, relative: ps[i].relative, filename: ps[i].filename },
    )
}

/// The expander chain reads the Debian index, when it reads one at all,
/// through a bag of package entries whose order the parsing crate chooses.
pub open spec fn spec_apt_applies(
    apt_packages: bool,
    path: Seq<u8>,
    data: Seq<u8>,
) -> bool {
    apt_packages && apt::spec_is_apt_package(path) && vstd::utf8::valid_utf8(data)
}

/// The yield of the expander chain for one downloaded file, for one
/// ordering `apt_pairs` of the Debian index's package bag: each enabled
/// expander that recognises the path contributes the tasks of its reading;
/// an expander that fails contributes nothing, and never fails the parent
/// download.
pub open spec fn spec_extension_tasks(
    apt_packages: bool,
    yum_packages: bool,
    path: Seq<u8>,
    rel: Seq<Seq<u8>>,
    url: Seq<u8>,
    data: Seq<u8>,
    apt_pairs: Seq<(Seq<u8>, int)>,
) -> Seq<SpecPackage> {
    let apt_part = if spec_apt_applies(apt_packages, path, data) {
        match apt::spec_parse_package(path, rel, url, apt_pairs) {
            Ok(ps) => apt_to_packages(ps),
            Err(_) => Seq::empty(),
        }
    } else {
        Seq::empty()
    };
    let yum_part = if yum_packages && yum::spec_is_yum_primary_xml(path) {
        match yum::spec_parse_package(rel, url, data) {
            Ok(ps) => ps,
            Err(_) => Seq::empty(),
        }
    } else {
        Seq::empty()
    };
    apt_part + yum_part
}

/// Offer one downloaded file to the enabled expanders and collect every
/// yielded task.  `path` is the local path of the file, `relative` the
/// mirror-relative segments of its directory, `url` its remote URL and
/// `data` the file's bytes.  The yield is the chain's reading for the
/// Debian package ordering the parsing crate chose.
pub fn extension_handler(
    apt_packages: bool,
    yum_packages: bool,
    path: &str,
    relative: &Vec<String>,
    url: &str,
    data: &[u8],
) -> (r: Vec<ExtensionPackage>)
    ensures
        exists|apt_pairs: Seq<(Seq<u8>, int)>|
            (spec_apt_applies(apt_packages, text_bytes(path@), data@)
                ==> apt_pairs.to_multiset() == apt::apt_packages_of(data@)) && packages_view(r@)
                == #[trigger] spec_extension_tasks(
                apt_packages,
                yum_packages,
                text_bytes(path@),
                crate::bytes::texts_of(relative@),
                text_bytes(url@),
                data@,
                apt_pairs,
            ),
{
    let mut res: Vec<ExtensionPackage> = Vec::new();
    let ghost mut apt_pairs_w: Seq<(Seq<u8>, int)> = Seq::empty();
    proof {
        assert(packages_view(res@) =~= Seq::<SpecPackage>::empty());
    }
    if apt_packages && apt::is_apt_package(path) {
        let ghost dv = data@;
        match crate::bytes::bytes_to_string(crate::bytes::to_vec(data)) {
            None => {
                proof {
                    assert(!vstd::utf8::valid_utf8(dv));
                }
            },
            Some(text) => {
                proof {
                    vstd::utf8::encode_utf8_valid_utf8(text@);
                }
                match apt::parse_package(path, relative, url, text.as_str()) {
                    Err(e) => {
                        proof {
                            apt_pairs_w = choose|pairs: Seq<(Seq<u8>, int)>|
                                pairs.to_multiset() == apt::apt_packages_of(data@)
                                    && #[trigger] apt::spec_parse_package(
                                    text_bytes(path@),
                                    crate::bytes::texts_of(relative@),
                                    text_bytes(url@),
                                    pairs,
                                ) == Err::<Seq<apt::SpecAptPackage>, ExtensionError>(e);
                        }
                    },
                    Ok(pkgs) => {
                        let ghost full = apt::apt_packages_view(pkgs@);
                        proof {
                            apt_pairs_w = choose|pairs: Seq<(Seq<u8>, int)>|
                                pairs.to_multiset() == apt::apt_packages_of(data@)
                                    && #[trigger] apt::spec_parse_package(
                                    text_bytes(path@),
                                    crate::bytes::texts_of(relative@),
                                    text_bytes(url@),
                                    pairs,
                                ) == Ok::<Seq<apt::SpecAptPackage>, ExtensionError>(full);
                        }
                        let mut pkgs = pkgs;
                        let ghost pkgs0 = pkgs@;
                        let mut k: usize = 0;
                        let n0 = pkgs.len();
                        proof {
                            assert(pkgs0.len() == n0 as int);
                            assert(pkgs@ =~= pkgs0.skip(0));
                            assert(apt_to_packages(full).take(0) =~= Seq::<SpecPackage>::empty());
                        }
                        while pkgs.len() > 0
                            invariant
                                0 <= k <= pkgs0.len() <= usize::MAX,
                                pkgs@ == pkgs0.skip(k as int),
                                full == apt::apt_packages_view(pkgs0),
                                packages_view(res@) =~= apt_to_packages(full).take(k as int),
                            decreases pkgs@.len(),
                        {
                            let p = pkgs.remove(0);
                            proof {
                                assert(p == pkgs0[k as int]);
                                assert(pkgs@ =~= pkgs0.skip(k + 1));
                            }
                            let ghost res_pre = res@;
                            res.push(ExtensionPackage::from(p));
                            proof {
                                assert(packages_view(res@) =~~= packages_view(res_pre).push(
                                    apt_to_packages(full)[k as int],
                                ));
                                assert(packages_view(res@) =~~= apt_to_packages(full).take(
                                    k + 1,
                                ));
                            }
                            k += 1;
                        }
                        proof {
                            assert(apt_to_packages(full).take(pkgs0.len() as int)
                                =~= apt_to_packages(full));
                        }
                    },
                }
            },
        }
    }
    let ghost after_apt = packages_view(res@);
    if yum_packages && yum::is_yum_primary_xml(path) {
        match yum::parse_package(relative, url, data) {
            Err(_) => {},
            Ok(pkgs) => {
                let ghost full = yum::yum_packages_view(pkgs@);
                let mut pkgs = pkgs;
                let ghost pkgs0 = pkgs@;
                let mut k: usize = 0;
                let n0 = pkgs.len();
                proof {
                    assert(pkgs0.len() == n0 as int);
                    assert(pkgs@ =~= pkgs0.skip(0));
                    assert(full.take(0) =~= Seq::<SpecPackage>::empty());
                    assert(packages_view(res@) =~= after_apt + full.take(0));
                }
                while pkgs.len() > 0
                    invariant
                        0 <= k <= pkgs0.len() <= usize::MAX,
                        pkgs@ == pkgs0.skip(k as int),
                        full == yum::yum_packages_view(pkgs0),
                        packages_view(res@) =~= after_apt + full.take(k as int),
                    decreases pkgs@.len(),
                {
                    let p = pkgs.remove(0);
                    proof {
                        assert(p == pkgs0[k as int]);
                        assert(pkgs@ =~= pkgs0.skip(k + 1));
                    }
                    let ghost res_pre = res@;
                    res.push(ExtensionPackage { url: p.url, relative: p.relative, filename: p.filename });
                    proof {
                        assert(packages_view(res@) =~~= packages_view(res_pre).push(
                            full[k as int],
                        ));
                        assert(packages_view(res@) =~~= after_apt + full.take(k + 1));
                    }
                    k += 1;
                }
                proof {
                    assert(full.take(pkgs0.len() as int) =~= full);
                }
            },
        }
    }
    proof {
        assert(packages_view(res@) =~~= spec_extension_tasks(
            apt_packages,
            yum_packages,
            text_bytes(path@),
            crate::bytes::texts_of(relative@),
            text_bytes(url@),
            data@,
            apt_pairs_w,
        ));
    }
    res
}

} // verus!
