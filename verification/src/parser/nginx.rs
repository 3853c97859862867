//! Parser for the plain nginx autoindex format (also fit for the one-column
//! apache listing): anchors followed by a text node holding
//! `DD-Mon-YYYY HH:MM` and a size that is a byte count, a humanised token,
//! or `-` for a directory.

use vstd::prelude::*;

use crate::bytes::{all_digits, bytes_to_string, eq_bytes, spec_digits_value, str_to_bytes,
    string_to_bytes, text_bytes};
use crate::listing::{spec_humanized, spec_trim_spaces_back, spec_trim_spaces_front, trim_spaces,
    FileSize, FileType, ListItem};
use crate::parser::dom::{anchor_rows, anchor_rows_of, texts3_of};
use crate::parser::{item_view, items_view, spec_ends_with_slash, spec_name_from_href};
use crate::parser::{string_ends_with_slash, ListResult, ParseError, SpecItem};
use crate::rematch::{regex_captures_of, regex_valid, CompiledRegex};
use crate::timestamp::{parse_naive_datetime, parsed_datetime};
use crate::web::{joined_url, url_join};

verus! {

/// The pattern that reads the metadata text after an anchor: a
/// `DD-Mon-YYYY HH:MM` timestamp, whitespace, then the size token.
pub open spec fn nginx_pattern() -> Seq<u8> {
    text_bytes("(\\d{2}-\\w{3}-\\d{4} \\d{2}:\\d{2})\\s+([\\d\\.\\-kMG]+)$"@)
}

/// The timestamp format of this dialect.
pub open spec fn nginx_date_format() -> Seq<u8> {
    text_bytes("%d-%b-%Y %H:%M"@)
}

/// The reading of one anchor row: `Ok(None)` for a row the listing skips,
/// `Ok(Some(..))` for one entry, and the first error the row raises.
pub open spec fn spec_nginx_row(
    urlb: Seq<u8>,
    href: Seq<u8>,
    tail: Seq<u8>,
    pat: Seq<u8>,
) -> Result<Option<SpecItem>, ParseError> {
    match spec_name_from_href(href) {
        None => Err(ParseError::Row),
        Some(name) => match joined_url(urlb, href) {
            None => Err(ParseError::Url),
            Some(joined) => if name == text_bytes(".."@) {
                Ok(None)
            } else {
                let type_ = if spec_ends_with_slash(joined) {
                    FileType::Directory
                } else {
                    FileType::File
                };
                let meta = spec_trim_spaces_front(spec_trim_spaces_back(tail));
                if !vstd::utf8::valid_utf8(meta) {
                    Err(ParseError::Row)
                } else {
                    match regex_captures_of(pat, meta) {
                        None => Err(ParseError::Row),
                        Some(groups) => if groups.len() < 3 {
                            Err(ParseError::Row)
                        } else {
                            match parsed_datetime(groups[1], nginx_date_format()) {
                                None => Err(ParseError::Row),
                                Some(secs) => match spec_nginx_size(groups[2]) {
                                    None => Err(ParseError::Row),
                                    Some(size) => Ok(
                                        Some(
                                            SpecItem {
                                                url: joined,
                                                name: name,
                                                type_: type_,
                                                size: size,
                                                mtime: secs,
                                                skip_check: false,
                                            },
                                        ),
                                    ),
                                },
                            }
                        },
                    }
                }
            },
        },
    }
}

/// The reading of a size token: `-` is no size, a token with one of the
/// letters `k M G` is a humanised binary size, anything else must be a plain
/// byte count.
pub open spec fn spec_nginx_size(sizeb: Seq<u8>) -> Option<Option<FileSize>> {
    if sizeb == text_bytes("-"@) {
        Some(None)
    } else if (exists|j: int| 0 <= j < sizeb.len() && sizeb[j] == 107) || (exists|j: int|
        0 <= j < sizeb.len() && sizeb[j] == 77) || (exists|j: int|
        0 <= j < sizeb.len() && sizeb[j] == 71) {
        match spec_humanized(sizeb) {
            None => None,
            Some((m, u)) => Some(Some(FileSize::HumanizedBinary(m, u))),
        }
    } else {
        if sizeb.len() >= 1 && all_digits(sizeb) && spec_digits_value(sizeb) <= u64::MAX {
            Some(Some(FileSize::Precise(spec_digits_value(sizeb) as u64)))
        } else {
            None
        }
    }
}

/// The entries read from a whole page: the rows in order, skipped rows
/// dropped, the first error aborting the listing.
pub open spec fn spec_nginx_items(
    urlb: Seq<u8>,
    rows: Seq<(Seq<u8>, Seq<u8>, Seq<u8>)>,
    pat: Seq<u8>,
) -> Result<Seq<SpecItem>, ParseError>
    decreases rows.len(),
{
    if rows.len() == 0 {
        Ok(Seq::empty())
    } else {
        match spec_nginx_row(urlb, rows[0].0, rows[0].2, pat) {
            Err(e) => Err(e),
            Ok(None) => spec_nginx_items(urlb, rows.drop_first(), pat),
            Ok(Some(it)) => match spec_nginx_items(urlb, rows.drop_first(), pat) {
                Err(e) => Err(e),
                Ok(rest) => Ok(seq![it] + rest),
            },
        }
    }
}

/// Read the size token of one row.
fn nginx_size(sizes: &String) -> (r: Option<Option<FileSize>>)
    ensures
        r == spec_nginx_size(text_bytes(sizes@)),
{
    let sb = string_to_bytes(sizes);
    let dash = str_to_bytes("-");
    if eq_bytes(sb.as_slice(), dash.as_slice()) {
        return Some(None);
    }
    if crate::bytes::contains_byte(sb.as_slice(), 107) || crate::bytes::contains_byte(
        sb.as_slice(),
        77,
    ) || crate::bytes::contains_byte(sb.as_slice(), 71) {
        match FileSize::get_humanized(sizes.as_str()) {
            None => None,
            Some((m, u)) => Some(Some(FileSize::HumanizedBinary(m, u))),
        }
    } else {
        match crate::bytes::parse_u64_digits(sb.as_slice()) {
            None => None,
            Some(v) => Some(Some(FileSize::Precise(v))),
        }
    }
}

/// Read one anchor row against the page URL.
fn nginx_row(url: &str, href: &String, tail: &String, re: &CompiledRegex) -> (r: Result<
    Option<ListItem>,
    ParseError,
>)
    ensures
        match r {
            Ok(Some(item)) => spec_nginx_row(
                text_bytes(url@),
                text_bytes(href@),
                text_bytes(tail@),
                re@,
            ) == Ok::<Option<SpecItem>, ParseError>(Some(item_view(item))),
            Ok(None) => spec_nginx_row(text_bytes(url@), text_bytes(href@), text_bytes(tail@), re@)
                == Ok::<Option<SpecItem>, ParseError>(None),
            Err(e) => spec_nginx_row(text_bytes(url@), text_bytes(href@), text_bytes(tail@), re@)
                == Err::<Option<SpecItem>, ParseError>(e),
        },
{
    let name = match crate::parser::name_from_href(href) {
        Some(name) => name,
        None => {
            return Err(ParseError::Row);
        },
    };
    let joined = match url_join(url, href.as_str()) {
        Some(j) => j,
        None => {
            return Err(ParseError::Url);
        },
    };
    let nb = string_to_bytes(&name);
    let dots = str_to_bytes("..");
    if eq_bytes(nb.as_slice(), dots.as_slice()) {
        return Ok(None);
    }
    let type_ = if string_ends_with_slash(&joined) {
        FileType::Directory
    } else {
        FileType::File
    };
    let tail_b = string_to_bytes(tail);
    let meta_b = trim_spaces(tail_b.as_slice());
    let ghost meta_v = meta_b@;
    let meta = match bytes_to_string(meta_b) {
        Some(m) => m,
        None => {
            proof {
                assert(!vstd::utf8::valid_utf8(meta_v));
            }
            return Err(ParseError::Row);
        },
    };
    proof {
        vstd::utf8::encode_utf8_valid_utf8(meta@);
    }
    let groups = match re.captures(meta.as_str()) {
        Some(g) => g,
        None => {
            return Err(ParseError::Row);
        },
    };
    if groups.len() < 3 {
        return Err(ParseError::Row);
    }
    proof {
        assert(crate::bytes::texts_of(groups@)[1] == text_bytes(groups@[1]@));
        assert(crate::bytes::texts_of(groups@)[2] == text_bytes(groups@[2]@));
    }
    let date = match parse_naive_datetime(groups[1].as_str(), "%d-%b-%Y %H:%M") {
        Some(d) => d,
        None => {
            return Err(ParseError::Row);
        },
    };
    let size = match nginx_size(&groups[2]) {
        Some(s) => s,
        None => {
            return Err(ParseError::Row);
        },
    };
    Ok(Some(ListItem::new(joined, name, type_, size, date)))
}

/// The nginx dialect parser: carries the compiled metadata pattern.
#[derive(Debug)]
pub struct NginxListingParser {
    metadata_regex: Option<CompiledRegex>,
}

impl NginxListingParser {
    /// The pattern this parser matches metadata against, when compilation
    /// succeeded.
    pub closed spec fn pattern(&self) -> Option<Seq<u8>> {
        match self.metadata_regex {
            Some(re) => Some(re@),
            None => None,
        }
    }
}

impl Default for NginxListingParser {
    fn default() -> (r: NginxListingParser)
        ensures
            r.pattern() matches Some(p) ==> p == nginx_pattern(),
            (r.pattern() is Some) == regex_valid(nginx_pattern()),
    {
        NginxListingParser {
            metadata_regex: CompiledRegex::compile(
                "(\\d{2}-\\w{3}-\\d{4} \\d{2}:\\d{2})\\s+([\\d\\.\\-kMG]+)$",
            ),
        }
    }
}

impl NginxListingParser {
    /// Read one fetched page.  `url` is the final URL of the page (after
    /// any client-side redirects), the base against which every entry's
    /// reference is resolved; `body` is the page text.
    #[verifier::rlimit(100)]
    pub fn get_list(&self, url: &str, body: &str) -> (r: Result<ListResult, ParseError>)
        ensures
            match self.pattern() {
                None => r matches Err(ParseError::Page),
                Some(pat) => match r {
                    Ok(ListResult::List(items)) => spec_nginx_items(
                        text_bytes(url@),
                        anchor_rows_of(text_bytes(body@)),
                        pat,
                    ) == Ok::<Seq<SpecItem>, ParseError>(items_view(items@)),
                    Ok(ListResult::Redirect(_)) => false,
                    Err(e) => spec_nginx_items(
                        text_bytes(url@),
                        anchor_rows_of(text_bytes(body@)),
                        pat,
                    ) == Err::<Seq<SpecItem>, ParseError>(e),
                },
            },
    {
        let re = match &self.metadata_regex {
            Some(re) => re,
            None => {
                return Err(ParseError::Page);
            },
        };
        let ghost pat = re@;
        let ghost urlb = text_bytes(url@);
        let rows = anchor_rows(body);
        let ghost rows_v = anchor_rows_of(text_bytes(body@));
        proof {
            assert(rows_v == texts3_of(rows@));
            assert(rows_v.skip(0) =~= rows_v);
        }
        let n = rows.len();
        let mut items: Vec<ListItem> = Vec::new();
        let mut i: usize = 0;
        proof {
            assert(items_view(items@) =~= Seq::<SpecItem>::empty());
        }
        while i < n
            invariant
                0 <= i <= n,
                n == rows@.len(),
                rows_v == texts3_of(rows@),
                rows_v == anchor_rows_of(text_bytes(body@)),
                urlb == text_bytes(url@),
                pat == re@,
                self.pattern() == Some(re@),
                spec_nginx_items(urlb, rows_v, pat) == match spec_nginx_items(
                    urlb,
                    rows_v.skip(i as int),
                    pat,
                ) {
                    Err(e) => Err::<Seq<SpecItem>, ParseError>(e),
                    Ok(rest) => Ok(items_view(items@) + rest),
                },
            decreases n - i,
        {
            let ghost row = rows_v[i as int];
            proof {
                assert(rows_v.skip(i as int)[0] == row);
                assert(rows_v.skip(i as int).drop_first() =~= rows_v.skip(i + 1));
                assert(text_bytes(rows@[i as int].0@) == row.0);
                assert(text_bytes(rows@[i as int].2@) == row.2);
            }
            match nginx_row(url, &rows[i].0, &rows[i].2, re) {
                Err(e) => {
                    proof {
                        assert(spec_nginx_items(urlb, rows_v.skip(i as int), pat) == Err::<
                            Seq<SpecItem>,
                            ParseError,
                        >(e));
                    }
                    return Err(e);
                },
                Ok(None) => {
                    proof {
                        assert(spec_nginx_items(urlb, rows_v.skip(i as int), pat)
                            == spec_nginx_items(urlb, rows_v.skip(i + 1), pat));
                    }
                },
                Ok(Some(item)) => {
                    let ghost items_pre = items@;
                    let ghost itv = item_view(item);
                    items.push(item);
                    proof {
                        assert(items_view(items@) =~= items_view(items_pre).push(itv));
                        assert(forall|rest: Seq<SpecItem>|
                            (items_view(items_pre).push(itv) + rest) =~= items_view(items_pre) + (
                            seq![itv] + rest));
                    }
                },
            }
            i += 1;
        }
        proof {
            assert(rows_v.skip(n as int) =~= Seq::<(Seq<u8>, Seq<u8>, Seq<u8>)>::empty());
            assert(items_view(items@) + Seq::<SpecItem>::empty() =~= items_view(items@));
        }
        Ok(ListResult::List(items))
    }
}

} // verus!
