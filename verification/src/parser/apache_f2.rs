//! Parser for the apache fancy-index table (`F=2`): an `#indexlist` table
//! whose odd and even rows carry named cells for the entry, its
//! `YYYY-MM-DD HH:MM` timestamp and its humanised size.

use vstd::prelude::*;

use crate::bytes::{eq_bytes, str_to_bytes, string_to_bytes, text_bytes};
use crate::listing::{spec_humanized, FileSize, FileType, ListItem};
use crate::parser::dom::{apache_rows, apache_rows_of, texts4_of};
use crate::parser::{item_view, items_view, spec_ends_with_slash, spec_real_name_from_href};
use crate::parser::{spec_trimmed, string_ends_with_slash, trimmed_string};
use crate::parser::{ListResult, ParseError, SpecItem};
use crate::timestamp::{parse_naive_datetime, parsed_datetime};
use crate::web::{joined_url, url_join};

verus! {

/// The timestamp format of this dialect.
pub open spec fn apache_date_format() -> Seq<u8> {
    text_bytes("%Y-%m-%d %H:%M"@)
}

/// The reading of a size cell: `-` is no size, anything else must be a
/// humanised binary token.
pub open spec fn spec_apache_size(sizeb: Seq<u8>) -> Option<Option<FileSize>> {
    if sizeb == text_bytes("-"@) {
        Some(None)
    } else {
        match spec_humanized(sizeb) {
            None => None,
            Some((m, u)) => Some(Some(FileSize::HumanizedBinary(m, u))),
        }
    }
}

/// The reading of one table row: the parent-directory row is skipped, the
/// name comes percent-decoded from the href, and the timestamp and size
/// cells are trimmed and read.
pub open spec fn spec_apache_row(
    urlb: Seq<u8>,
    row: (Seq<u8>, Seq<u8>, Seq<u8>, Seq<u8>),
) -> Result<Option<SpecItem>, ParseError> {
    let inner = row.0;
    let href = row.1;
    if inner == text_bytes("Parent Directory"@) {
        Ok(None)
    } else {
        match spec_real_name_from_href(href) {
            None => Err(ParseError::Row),
            Some(name) => match joined_url(urlb, href) {
                None => Err(ParseError::Url),
                Some(joined) => {
                    let type_ = if spec_ends_with_slash(joined) {
                        FileType::Directory
                    } else {
                        FileType::File
                    };
                    match spec_trimmed(row.2) {
                        None => Err(ParseError::Row),
                        Some(lastmod) => match parsed_datetime(lastmod, apache_date_format()) {
                            None => Err(ParseError::Row),
                            Some(secs) => match spec_trimmed(row.3) {
                                None => Err(ParseError::Row),
                                Some(sizeb) => match spec_apache_size(sizeb) {
                                    None => Err(ParseError::Row),
                                    Some(size) => Ok(
                                        Some(
                                            SpecItem {
                                                url: joined,
                                                name: name,
                                                type_: type_,
                                                size: size,
                                                mtime: secs,
                                                skip_check: false,
                                            },
                                        ),
                                    ),
                                },
                            },
                        },
                    }
                },
            },
        }
    }
}

/// The entries read from a whole page.
pub open spec fn spec_apache_items(
    urlb: Seq<u8>,
    rows: Seq<(Seq<u8>, Seq<u8>, Seq<u8>, Seq<u8>)>,
) -> Result<Seq<SpecItem>, ParseError>
    decreases rows.len(),
{
    if rows.len() == 0 {
        Ok(Seq::empty())
    } else {
        match spec_apache_row(urlb, rows[0]) {
            Err(e) => Err(e),
            Ok(None) => spec_apache_items(urlb, rows.drop_first()),
            Ok(Some(it)) => match spec_apache_items(urlb, rows.drop_first()) {
                Err(e) => Err(e),
                Ok(rest) => Ok(seq![it] + rest),
            },
        }
    }
}


/// The outcome of a whole page: `None` when the page lacks the table.
pub open spec fn spec_apache_items_of_page(urlb: Seq<u8>, bodyb: Seq<u8>) -> Option<
    Result<Seq<SpecItem>, ParseError>,
> {
    match apache_rows_of(bodyb) {
        None => None,
        Some(rows) => Some(spec_apache_items(urlb, rows)),
    }
}

/// Read the size cell of one row.
fn apache_size(sizes: &String) -> (r: Option<Option<FileSize>>)
    ensures
        r == spec_apache_size(text_bytes(sizes@)),
{
    let sb = string_to_bytes(sizes);
    let dash = str_to_bytes("-");
    if eq_bytes(sb.as_slice(), dash.as_slice()) {
        return Some(None);
    }
    match FileSize::get_humanized(sizes.as_str()) {
        None => None,
        Some((m, u)) => Some(Some(FileSize::HumanizedBinary(m, u))),
    }
}

/// Read one table row against the page URL.
fn apache_row(url: &str, row: &(String, String, String, String)) -> (r: Result<
    Option<ListItem>,
    ParseError,
>)
    ensures
        ({
            let rowb = (
                text_bytes(row.0@),
                text_bytes(row.1@),
                text_bytes(row.2@),
                text_bytes(row.3@),
            );
            match r {
                Ok(Some(item)) => spec_apache_row(text_bytes(url@), rowb) == Ok::<
                    Option<SpecItem>,
                    ParseError,
                >(Some(item_view(item))),
                Ok(None) => spec_apache_row(text_bytes(url@), rowb) == Ok::<
                    Option<SpecItem>,
                    ParseError,
                >(None),
                Err(e) => spec_apache_row(text_bytes(url@), rowb) == Err::<
                    Option<SpecItem>,
                    ParseError,
                >(e),
            }
        }),
{
    let ib = string_to_bytes(&row.0);
    let parent = str_to_bytes("Parent Directory");
    if eq_bytes(ib.as_slice(), parent.as_slice()) {
        return Ok(None);
    }
    let name = match crate::parser::get_real_name_from_href(&row.1) {
        Some(name) => name,
        None => {
            return Err(ParseError::Row);
        },
    };
    let joined = match url_join(url, row.1.as_str()) {
        Some(j) => j,
        None => {
            return Err(ParseError::Url);
        },
    };
    let type_ = if string_ends_with_slash(&joined) {
        FileType::Directory
    } else {
        FileType::File
    };
    let lastmod = match trimmed_string(&row.2) {
        Some(t) => t,
        None => {
            return Err(ParseError::Row);
        },
    };
    let date = match parse_naive_datetime(lastmod.as_str(), "%Y-%m-%d %H:%M") {
        Some(d) => d,
        None => {
            return Err(ParseError::Row);
        },
    };
    let sizes = match trimmed_string(&row.3) {
        Some(t) => t,
        None => {
            return Err(ParseError::Row);
        },
    };
    let size = match apache_size(&sizes) {
        Some(s) => s,
        None => {
            return Err(ParseError::Row);
        },
    };
    Ok(Some(ListItem::new(joined, name, type_, size, date)))
}

/// The apache fancy-index dialect parser.
#[derive(Debug, Clone, Copy)]
pub struct ApacheF2ListingParser;

impl Default for ApacheF2ListingParser {
    fn default() -> (r: ApacheF2ListingParser) {
        ApacheF2ListingParser
    }
}

impl ApacheF2ListingParser {
    /// Read one fetched page.  `url` is the final URL of the page, the base
    /// against which every entry's reference is resolved; `body` is the
    /// page text.
    pub fn get_list(&self, url: &str, body: &str) -> (r: Result<ListResult, ParseError>)
        ensures
            match apache_rows_of(text_bytes(body@)) {
                None => r matches Err(ParseError::Page),
                Some(rows) => match r {
                    Ok(ListResult::List(items)) => spec_apache_items(text_bytes(url@), rows)
                        == Ok::<Seq<SpecItem>, ParseError>(items_view(items@)),
                    Ok(ListResult::Redirect(_)) => false,
                    Err(e) => spec_apache_items(text_bytes(url@), rows) == Err::<
                        Seq<SpecItem>,
                        ParseError,
                    >(e),
                },
            },
    {
        let ghost urlb = text_bytes(url@);
        let rows = match apache_rows(body) {
            Some(rows) => rows,
            None => {
                return Err(ParseError::Page);
            },
        };
        let ghost rows_v = apache_rows_of(text_bytes(body@))->Some_0;
        proof {
            assert(rows_v == texts4_of(rows@));
            assert(rows_v.skip(0) =~= rows_v);
        }
        let n = rows.len();
        let mut items: Vec<ListItem> = Vec::new();
        let mut i: usize = 0;
        proof {
            assert(items_view(items@) =~= Seq::<SpecItem>::empty());
        }
        while i < n
            invariant
                0 <= i <= n,
                n == rows@.len(),
                rows_v == texts4_of(rows@),
                apache_rows_of(text_bytes(body@)) == Some(rows_v),
                urlb == text_bytes(url@),
                spec_apache_items(urlb, rows_v) == match spec_apache_items(
                    urlb,
                    rows_v.skip(i as int),
                ) {
                    Err(e) => Err::<Seq<SpecItem>, ParseError>(e),
                    Ok(rest) => Ok(items_view(items@) + rest),
                },
            decreases n - i,
        {
            let ghost row = rows_v[i as int];
            proof {
                assert(rows_v.skip(i as int)[0] == row);
                assert(rows_v.skip(i as int).drop_first() =~= rows_v.skip(i + 1));
                assert(text_bytes(rows@[i as int].0@) == row.0);
                assert(text_bytes(rows@[i as int].1@) == row.1);
                assert(text_bytes(rows@[i as int].2@) == row.2);
                assert(text_bytes(rows@[i as int].3@) == row.3);
            }
            match apache_row(url, &rows[i]) {
                Err(e) => {
                    proof {
                        assert(spec_apache_items(urlb, rows_v.skip(i as int)) == Err::<
                            Seq<SpecItem>,
                            ParseError,
                        >(e));
                    }
                    return Err(e);
                },
                Ok(None) => {
                    proof {
                        assert(spec_apache_items(urlb, rows_v.skip(i as int)) == spec_apache_items(
                            urlb,
                            rows_v.skip(i + 1),
                        ));
                    }
                },
                Ok(Some(item)) => {
                    let ghost items_pre = items@;
                    let ghost itv = item_view(item);
                    items.push(item);
                    proof {
                        assert(items_view(items@) =~= items_view(items_pre).push(itv));
                        assert(forall|rest: Seq<SpecItem>|
                            (items_view(items_pre).push(itv) + rest) =~= items_view(items_pre) + (
                            seq![itv] + rest));
                    }
                },
            }
            i += 1;
        }
        proof {
            assert(rows_v.skip(n as int) =~= Seq::<(Seq<u8>, Seq<u8>, Seq<u8>, Seq<u8>)>::empty());
            assert(items_view(items@) + Seq::<SpecItem>::empty() =~= items_view(items@));
        }
        Ok(ListResult::List(items))
    }
}

} // verus!
