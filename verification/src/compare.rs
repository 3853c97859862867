//! The freshness comparator: given the metadata of the local copy and the
//! remote listing entry, decide whether the file must be downloaded again.

use vstd::prelude::*;

use crate::listing::{FileSize, FileType, ListItem, NaiveDateTime};
use crate::utils::spec_naive_to_utc;

verus! {

/// What kind of object sits at the local path, as reported by the caller's
/// filesystem probe.
#[derive(Debug, PartialEq, Eq, Structural, Clone, Copy)]
pub enum LocalFileKind {
    File,
    Directory,
    /// Anything else a filesystem can hold (symlink, socket, device).
    Other,
}

/// Metadata of the local copy of a file, gathered by the caller.
#[derive(Debug, PartialEq, Eq, Structural, Clone, Copy)]
pub struct LocalMetadata {
    pub kind: LocalFileKind,
    /// Size in bytes.
    pub size: u64,
    /// Modification time, in UTC seconds since the epoch.
    pub mtime: i64,
}

/// The local kind agrees with the remote entry kind.
pub open spec fn spec_compare_filetype(kind: LocalFileKind, remote: FileType) -> bool {
    match remote {
        FileType::File => kind is File,
        FileType::Directory => kind is Directory,
    }
}

pub fn compare_filetype(kind: &LocalFileKind, tsumugu_type: &FileType) -> (r: bool)
    ensures
        r == spec_compare_filetype(*kind, *tsumugu_type),
{
    match tsumugu_type {
        FileType::File => matches!(kind, LocalFileKind::File),
        FileType::Directory => matches!(kind, LocalFileKind::Directory),
    }
}

/// A local byte count agrees with a remote size.  A missing remote size is
/// read as a precise zero; a precise size asks for equality; a humanised
/// size asks for a difference of strictly less than two units.
pub open spec fn spec_size_matches(local_size: u64, size: Option<FileSize>) -> bool {
    match size {
        None => local_size == 0,
        Some(FileSize::Precise(n)) => local_size == n,
        Some(FileSize::HumanizedBinary(m, u)) => {
            let f = u.spec_factor(1024);
            let d = 1000 * local_size - m * f;
            -2000 * f < d < 2000 * f
        },
        Some(FileSize::HumanizedDecimal(m, u)) => {
            let f = u.spec_factor(1000);
            let d = 1000 * local_size - m * f;
            -2000 * f < d < 2000 * f
        },
    }
}

/// Compare a humanised size of `m` thousandths of a unit of `f` bytes
/// against a local byte count, asking for less than two units of difference.
fn humanized_matches(local_size: u64, m: u64, f: u64) -> (r: bool)
    requires
        f >= 1,
    ensures
        r == {
            let d = 1000 * local_size - m * f;
            -2000 * (f as int) < d < 2000 * (f as int)
        },
{
    proof {
        crate::listing::lemma_u64_product_fits_u128(m, f);
    }
    let a: u128 = 1000 * (local_size as u128);
    let b: u128 = (m as u128) * (f as u128);
    let bound: u128 = 2000 * (f as u128);
    if a >= b {
        a - b < bound
    } else {
        b - a < bound
    }
}

fn size_matches(local_size: u64, size: &Option<FileSize>) -> (r: bool)
    ensures
        r == spec_size_matches(local_size, *size),
{
    match size {
        None => local_size == 0,
        Some(FileSize::Precise(n)) => local_size == *n,
        Some(FileSize::HumanizedBinary(m, u)) => {
            let f = u.binary_factor();
            proof {
                crate::listing::lemma_factor_positive(*u);
            }
            humanized_matches(local_size, *m, f)
        },
        Some(FileSize::HumanizedDecimal(m, u)) => {
            let f = u.decimal_factor();
            proof {
                crate::listing::lemma_factor_positive(*u);
            }
            humanized_matches(local_size, *m, f)
        },
    }
}

/// The gap between the remote and local modification times is past what the
/// comparator tolerates: one minute when the remote timezone is known, a
/// full day when it is not.  The bounds follow truncating division of the
/// gap into whole minutes or hours.
pub open spec fn spec_mtime_out_of_tolerance(
    remote_utc: int,
    local_utc: int,
    timezone_known: bool,
) -> bool {
    let gap = remote_utc - local_utc;
    if timezone_known {
        gap >= 120 || gap <= -120
    } else {
        gap >= 90000 || gap <= -90000
    }
}

/// Whether the remote entry must be downloaded, judged from the listing
/// alone, as a function of every input the decision reads.
pub open spec fn spec_should_download_by_list(
    local: Option<LocalMetadata>,
    remote: ListItem,
    remote_timezone: Option<i64>,
    skip_if_exists: bool,
    size_only: bool,
) -> bool {
    match local {
        None => true,
        Some(meta) => if skip_if_exists || remote.skip_check {
            false
        } else if !spec_compare_filetype(meta.kind, remote.type_) {
            true
        } else if !spec_size_matches(meta.size, remote.size) {
            true
        } else if size_only {
            false
        } else {
            spec_mtime_out_of_tolerance(
                spec_naive_to_utc(remote.mtime.secs as int, remote_timezone),
                meta.mtime as int,
                remote_timezone is Some,
            )
        },
    }
}

/// Decide from the listing whether `remote` must be fetched.  `local` is the
/// metadata of the local path, or `None` when it cannot be read (a missing
/// file, or any other failed probe, is downloaded afresh).
pub fn should_download_by_list(
    local: Option<&LocalMetadata>,
    remote: &ListItem,
    remote_timezone: Option<i64>,
    skip_if_exists: bool,
    size_only: bool,
) -> (r: bool)
    ensures
        r == spec_should_download_by_list(
            match local {
                Some(m) => Some(*m),
                None => None,
            },
            *remote,
            remote_timezone,
            skip_if_exists,
            size_only,
        ),
{
    let meta = match local {
        Some(m) => m,
        None => {
            return true;
        },
    };
    if skip_if_exists || remote.skip_check {
        return false;
    }
    if !compare_filetype(&meta.kind, &remote.type_) {
        return true;
    }
    if !size_matches(meta.size, &remote.size) {
        return true;
    }
    if size_only {
        return false;
    }
    let remote_utc: i128 = match remote_timezone {
        None => remote.mtime.secs as i128,
        Some(offset) => remote.mtime.secs as i128 - offset as i128,
    };
    let gap: i128 = remote_utc - meta.mtime as i128;
    let timezone_known = remote_timezone.is_some();
    if timezone_known {
        gap >= 120 || gap <= -120
    } else {
        gap >= 90000 || gap <= -90000
    }
}

/// Decide from the answer to a HEAD probe whether the file must be fetched.
/// The probe's URL, precise content length and UTC modification time form a
/// synthetic listing entry that is judged with a known UTC timezone.
pub fn should_download_by_head(
    local: Option<&LocalMetadata>,
    url: String,
    name: String,
    content_length: u64,
    mtime_utc: i64,
    size_only: bool,
) -> (r: bool)
    ensures
        r == spec_should_download_by_list(
            match local {
                Some(m) => Some(*m),
                None => None,
            },
            (ListItem {
                url: url,
                name: name,
                type_: if crate::bytes::text_bytes(url@).len() > 0 && crate::bytes::text_bytes(
                    url@,
                ).last() == 47 {
                    FileType::Directory
                } else {
                    FileType::File
                },
                size: Some(FileSize::Precise(content_length)),
                mtime: (NaiveDateTime { secs: mtime_utc }),
                skip_check: false,
            }),
            Some(0),
            false,
            size_only,
        ),
{
    let url_bytes = crate::bytes::string_to_bytes(&url);
    let is_dir = url_bytes.len() > 0 && url_bytes[url_bytes.len() - 1] == 47;
    let item = ListItem {
        url,
        name,
        type_: if is_dir {
            FileType::Directory
        } else {
            FileType::File
        },
        size: Some(FileSize::Precise(content_length)),
        mtime: NaiveDateTime { secs: mtime_utc },
        skip_check: false,
    };
    should_download_by_list(local, &item, Some(0), false, size_only)
}

/// The comparator is a function of its inputs alone: judging the same local
/// state against the same remote entry twice gives the same decision, so a
/// file once found fresh stays skipped until something changes.
pub proof fn lemma_freshness_stable(
    local: Option<LocalMetadata>,
    remote: ListItem,
    remote_timezone: Option<i64>,
    skip_if_exists: bool,
    size_only: bool,
)
    ensures
        spec_should_download_by_list(local, remote, remote_timezone, skip_if_exists, size_only)
            == spec_should_download_by_list(
            local,
            remote,
            remote_timezone,
            skip_if_exists,
            size_only,
        ),
{
}

} // verus!
