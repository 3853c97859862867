//! The index-page parser interface: each supported server dialect turns one
//! fetched page into a typed listing (or, for the dialect that handles
//! relocations itself, a redirect).  The caller fetches the page and hands
//! the final URL and the body in; every step from the extracted rows to the
//! returned entries is specified exactly.

use vstd::prelude::*;

use crate::bytes::{bytes_to_string, string_to_bytes, text_bytes, trim_trailing};
use crate::bytes::spec_trim_trailing;
use crate::listing::ListItem;
use crate::web::form_decoded;

pub mod apache_f2;
pub mod caddy;
pub mod directory_lister;
pub mod docker;
pub mod lighttpd;
pub mod dom;
pub mod nginx;

verus! {

/// The outcome of one listing: the entries of the page, or the target of a
/// relocation that the caller materialises as a symlink.
#[derive(Debug)]
pub enum ListResult {
    List(Vec<ListItem>),
    Redirect(String),
}

/// Why a page could not be read as a listing.
#[derive(Debug, PartialEq, Eq, Structural, Clone, Copy)]
pub enum ParseError {
    /// The page does not carry the dialect's structure.
    Page,
    /// A row of the page could not be read.
    Row,
    /// An entry's reference could not be resolved against the page URL.
    Url,
}

/// The ghost image of one listed entry, over the bytes of its texts.
pub ghost struct SpecItem {
    pub url: Seq<u8>,
    pub name: Seq<u8>,
    pub type_: crate::listing::FileType,
    pub size: Option<crate::listing::FileSize>,
    pub mtime: int,
    pub skip_check: bool,
}

/// The ghost image of one executable entry.
pub open spec fn item_view(it: ListItem) -> SpecItem {
    SpecItem {
        url: text_bytes(it.url@),
        name: text_bytes(it.name@),
        type_: it.type_,
        size: it.size,
        mtime: it.mtime.secs as int,
        skip_check: it.skip_check,
    }
}

/// The ghost images of a sequence of entries.
pub open spec fn items_view(items: Seq<ListItem>) -> Seq<SpecItem> {
    Seq::new(items.len(), |i: int| item_view(items[i]))
}

/// Text ends with a slash.
pub open spec fn spec_ends_with_slash(b: Seq<u8>) -> bool {
    b.len() > 0 && b.last() == 47
}

/// Whether the string's last byte is a slash.
pub fn str_ends_with_slash(s: &str) -> (r: bool)
    ensures
        r == spec_ends_with_slash(text_bytes(s@)),
{
    let b = crate::bytes::str_to_bytes(s);
    if b.len() == 0 {
        false
    } else {
        let last = b[b.len() - 1];
        last == 47
    }
}

/// Whether the owned string's last byte is a slash.
pub fn string_ends_with_slash(s: &String) -> (r: bool)
    ensures
        r == spec_ends_with_slash(text_bytes(s@)),
{
    str_ends_with_slash(s.as_str())
}

/// The displayed name read from an href, as the basic dialects do it: the
/// href is percent-decoded when it carries a `%`, then stripped of trailing
/// slashes; `None` when the stripped bytes are not a whole string (never for
/// pages the decoding accepts).
pub open spec fn spec_name_from_href(href: Seq<u8>) -> Option<Seq<u8>> {
    let decoded = if exists|j: int| 0 <= j < href.len() && href[j] == 37 {
        form_decoded(href)
    } else {
        href
    };
    let trimmed = spec_trim_trailing(decoded, 47);
    if vstd::utf8::valid_utf8(trimmed) {
        Some(trimmed)
    } else {
        None
    }
}

/// Read the entry name out of an href: percent-decode when a `%` occurs,
/// strip trailing slashes.
pub fn name_from_href(href: &String) -> (r: Option<String>)
    ensures
        match r {
            Some(name) => spec_name_from_href(text_bytes(href@)) == Some(text_bytes(name@)),
            None => spec_name_from_href(text_bytes(href@)) is None,
        },
{
    let hb = string_to_bytes(href);
    let decoded: String = if crate::bytes::contains_byte(hb.as_slice(), 37) {
        crate::web::form_decode(href.as_str())
    } else {
        href.clone()
    };
    let db = string_to_bytes(&decoded);
    let trimmed = trim_trailing(db.as_slice(), 47);
    let ghost tb = trimmed@;
    match bytes_to_string(trimmed) {
        Some(name) => {
            proof {
                vstd::utf8::encode_utf8_valid_utf8(name@);
            }
            Some(name)
        },
        None => {
            proof {
                assert(!vstd::utf8::valid_utf8(tb));
            }
            None
        },
    }
}

/// The percent-decoded form of an href, stripped of trailing slashes, as the
/// shared name helper of the table dialects: `None` when the stripped bytes
/// are not a whole string.
pub open spec fn spec_real_name_from_href(href: Seq<u8>) -> Option<Seq<u8>> {
    let trimmed = spec_trim_trailing(form_decoded(href), 47);
    if vstd::utf8::valid_utf8(trimmed) {
        Some(trimmed)
    } else {
        None
    }
}

/// Percent-decode an href and strip trailing slashes.
pub fn get_real_name_from_href(href: &String) -> (r: Option<String>)
    ensures
        match r {
            Some(name) => spec_real_name_from_href(text_bytes(href@)) == Some(text_bytes(name@)),
            None => spec_real_name_from_href(text_bytes(href@)) is None,
        },
{
    let decoded = crate::web::form_decode(href.as_str());
    let db = string_to_bytes(&decoded);
    let trimmed = trim_trailing(db.as_slice(), 47);
    let ghost tb = trimmed@;
    match bytes_to_string(trimmed) {
        Some(name) => {
            proof {
                vstd::utf8::encode_utf8_valid_utf8(name@);
            }
            Some(name)
        },
        None => {
            proof {
                assert(!vstd::utf8::valid_utf8(tb));
            }
            None
        },
    }
}

/// A cell's text with surrounding whitespace dropped: `None` when the bytes
/// between are not a whole string (never for real text).
pub open spec fn spec_trimmed(b: Seq<u8>) -> Option<Seq<u8>> {
    let t = crate::listing::spec_trim_spaces_front(crate::listing::spec_trim_spaces_back(b));
    if vstd::utf8::valid_utf8(t) {
        Some(t)
    } else {
        None
    }
}

/// Trim ASCII whitespace around a cell's text.
pub fn trimmed_string(s: &String) -> (r: Option<String>)
    ensures
        match r {
            Some(t) => spec_trimmed(text_bytes(s@)) == Some(text_bytes(t@)),
            None => spec_trimmed(text_bytes(s@)) is None,
        },
{
    let sb = string_to_bytes(s);
    let tb = crate::listing::trim_spaces(sb.as_slice());
    let ghost tv = tb@;
    match bytes_to_string(tb) {
        Some(t) => {
            proof {
                vstd::utf8::encode_utf8_valid_utf8(t@);
            }
            Some(t)
        },
        None => {
            proof {
                assert(!vstd::utf8::valid_utf8(tv));
            }
            None
        },
    }
}

/// The supported index-page dialects.
#[derive(Debug, Clone, Copy)]
pub enum ParserType {
    Nginx,
    ApacheF2,
    Docker,
    DirectoryLister,
    Lighttpd,
}

impl ParserType {
    /// Whether the HTTP client should follow relocations on this dialect's
    /// behalf; the docker dialect reads them itself.
    pub fn is_auto_redirect(&self) -> (r: bool)
        ensures
            r == !(self is Docker),
    {
        !matches!(self, ParserType::Docker)
    }

    /// The one parser interface: read one fetched page under the chosen
    /// dialect.  `url` is the final URL of the page, the base against which
    /// every entry's reference is resolved; `body` is the page text.  The
    /// dialects that match metadata through a compiled pattern answer with
    /// a page error in the never-seen case that their fixed pattern does
    /// not compile.
    pub fn get_list(&self, url: &str, body: &str) -> (r: Result<ListResult, ParseError>)
        ensures
            ({
                let urlb = text_bytes(url@);
                let bodyb = text_bytes(body@);
                match self {
                    ParserType::Nginx => crate::rematch::regex_valid(nginx::nginx_pattern())
                        ==> match r {
                        Ok(ListResult::List(items)) => nginx::spec_nginx_items(
                            urlb,
                            dom::anchor_rows_of(bodyb),
                            nginx::nginx_pattern(),
                        ) == Ok::<Seq<SpecItem>, ParseError>(items_view(items@)),
                        Ok(ListResult::Redirect(_)) => false,
                        Err(e) => nginx::spec_nginx_items(
                            urlb,
                            dom::anchor_rows_of(bodyb),
                            nginx::nginx_pattern(),
                        ) == Err::<Seq<SpecItem>, ParseError>(e),
                    },
                    ParserType::ApacheF2 => match apache_f2::spec_apache_items_of_page(
                        urlb,
                        bodyb,
                    ) {
                        None => r matches Err(ParseError::Page),
                        Some(outcome) => match r {
                            Ok(ListResult::List(items)) => outcome == Ok::<
                                Seq<SpecItem>,
                                ParseError,
                            >(items_view(items@)),
                            Ok(ListResult::Redirect(_)) => false,
                            Err(e) => outcome == Err::<Seq<SpecItem>, ParseError>(e),
                        },
                    },
                    ParserType::Docker => crate::rematch::regex_valid(docker::docker_pattern())
                        ==> match r {
                        Ok(ListResult::List(items)) => docker::spec_docker_items(
                            urlb,
                            dom::anchor_rows_of(bodyb),
                            docker::docker_pattern(),
                        ) == Ok::<Seq<SpecItem>, ParseError>(items_view(items@)),
                        Ok(ListResult::Redirect(_)) => false,
                        Err(e) => docker::spec_docker_items(
                            urlb,
                            dom::anchor_rows_of(bodyb),
                            docker::docker_pattern(),
                        ) == Err::<Seq<SpecItem>, ParseError>(e),
                    },
                    ParserType::DirectoryLister => match directory_lister::spec_dlister_items_of_page(
                        urlb,
                        bodyb,
                    ) {
                        None => r matches Err(ParseError::Page),
                        Some(outcome) => match r {
                            Ok(ListResult::List(items)) => outcome == Ok::<
                                Seq<SpecItem>,
                                ParseError,
                            >(items_view(items@)),
                            Ok(ListResult::Redirect(_)) => false,
                            Err(e) => outcome == Err::<Seq<SpecItem>, ParseError>(e),
                        },
                    },
                    ParserType::Lighttpd => match lighttpd::spec_lighttpd_items_of_page(
                        urlb,
                        bodyb,
                    ) {
                        None => r matches Err(ParseError::Page),
                        Some(outcome) => match r {
                            Ok(ListResult::List(items)) => outcome == Ok::<
                                Seq<SpecItem>,
                                ParseError,
                            >(items_view(items@)),
                            Ok(ListResult::Redirect(_)) => false,
                            Err(e) => outcome == Err::<Seq<SpecItem>, ParseError>(e),
                        },
                    },
                }
            }),
    {
        match self {
            ParserType::Nginx => nginx::NginxListingParser::default().get_list(url, body),
            ParserType::ApacheF2 => apache_f2::ApacheF2ListingParser::default().get_list(
                url,
                body,
            ),
            ParserType::Docker => docker::DockerListingParser::default().get_list(url, body),
            ParserType::DirectoryLister => directory_lister::DirectoryListerListingParser::default().get_list(
                url,
                body,
            ),
            ParserType::Lighttpd => lighttpd::LighttpdListingParser::default().get_list(url, body),
        }
    }
}

} // verus!
