//! Parser for DirectoryLister pages: a flat list whose second group holds
//! the entries, with class-named cells for name, size and
//! `YYYY-MM-DD HH:MM:SS` timestamp; an em-dash size marks a directory.

use vstd::prelude::*;

use crate::bytes::{eq_bytes, str_to_bytes, string_to_bytes, text_bytes};
use crate::listing::{spec_humanized, FileSize, FileType, ListItem};
use crate::parser::dom::{dlister_rows, dlister_rows_of, texts4_of};
use crate::parser::{item_view, items_view, spec_ends_with_slash, spec_trimmed};
use crate::parser::{trimmed_string, ListResult, ParseError, SpecItem};
use crate::timestamp::{parse_naive_datetime, parsed_datetime};
use crate::web::{joined_url, url_join};

verus! {

/// The timestamp format of this dialect.
pub open spec fn dlister_date_format() -> Seq<u8> {
    text_bytes("%Y-%m-%d %H:%M:%S"@)
}

/// The reading of one entry: the reference is resolved first, the displayed
/// cells are trimmed, a `..` entry is skipped, and an em-dash size cell
/// names a directory without a size.
pub open spec fn spec_dlister_row(
    urlb: Seq<u8>,
    row: (Seq<u8>, Seq<u8>, Seq<u8>, Seq<u8>),
) -> Result<Option<SpecItem>, ParseError> {
    let href = row.0;
    match joined_url(urlb, href) {
        None => Err(ParseError::Url),
        Some(joined) => match (spec_trimmed(row.1), spec_trimmed(row.2), spec_trimmed(row.3)) {
            (Some(name), Some(sizeb), Some(mtimeb)) => if name == text_bytes(".."@) {
                Ok(None)
            } else {
                let is_dir = sizeb == text_bytes("\u{2014}"@);
                match parsed_datetime(mtimeb, dlister_date_format()) {
                    None => Err(ParseError::Row),
                    Some(secs) => if is_dir {
                        Ok(
                            Some(
                                SpecItem {
                                    url: joined,
                                    name: name,
                                    type_: FileType::Directory,
                                    size: None,
                                    mtime: secs,
                                    skip_check: false,
                                },
                            ),
                        )
                    } else {
                        match spec_humanized(sizeb) {
                            None => Err(ParseError::Row),
                            Some((m, u)) => Ok(
                                Some(
                                    SpecItem {
                                        url: joined,
                                        name: name,
                                        type_: FileType::File,
                                        size: Some(FileSize::HumanizedBinary(m, u)),
                                        mtime: secs,
                                        skip_check: false,
                                    },
                                ),
                            ),
                        }
                    },
                }
            },
            _ => Err(ParseError::Row),
        },
    }
}

/// The entries read from a whole page.
pub open spec fn spec_dlister_items(
    urlb: Seq<u8>,
    rows: Seq<(Seq<u8>, Seq<u8>, Seq<u8>, Seq<u8>)>,
) -> Result<Seq<SpecItem>, ParseError>
    decreases rows.len(),
{
    if rows.len() == 0 {
        Ok(Seq::empty())
    } else {
        match spec_dlister_row(urlb, rows[0]) {
            Err(e) => Err(e),
            Ok(None) => spec_dlister_items(urlb, rows.drop_first()),
            Ok(Some(it)) => match spec_dlister_items(urlb, rows.drop_first()) {
                Err(e) => Err(e),
                Ok(rest) => Ok(seq![it] + rest),
            },
        }
    }
}


/// The outcome of a whole page: `None` when the page lacks its structure.
pub open spec fn spec_dlister_items_of_page(urlb: Seq<u8>, bodyb: Seq<u8>) -> Option<
    Result<Seq<SpecItem>, ParseError>,
> {
    match dlister_rows_of(bodyb) {
        None => None,
        Some(rows) => Some(spec_dlister_items(urlb, rows)),
    }
}

/// Read one entry against the page URL.
fn dlister_row(url: &str, row: &(String, String, String, String)) -> (r: Result<
    Option<ListItem>,
    ParseError,
>)
    ensures
        ({
            let rowb = (
                text_bytes(row.0@),
                text_bytes(row.1@),
                text_bytes(row.2@),
                text_bytes(row.3@),
            );
            match r {
                Ok(Some(item)) => spec_dlister_row(text_bytes(url@), rowb) == Ok::<
                    Option<SpecItem>,
                    ParseError,
                >(Some(item_view(item))),
                Ok(None) => spec_dlister_row(text_bytes(url@), rowb) == Ok::<
                    Option<SpecItem>,
                    ParseError,
                >(None),
                Err(e) => spec_dlister_row(text_bytes(url@), rowb) == Err::<
                    Option<SpecItem>,
                    ParseError,
                >(e),
            }
        }),
{
    let joined = match url_join(url, row.0.as_str()) {
        Some(j) => j,
        None => {
            return Err(ParseError::Url);
        },
    };
    let name = match trimmed_string(&row.1) {
        Some(t) => t,
        None => {
            return Err(ParseError::Row);
        },
    };
    let sizes = match trimmed_string(&row.2) {
        Some(t) => t,
        None => {
            return Err(ParseError::Row);
        },
    };
    let mtimes = match trimmed_string(&row.3) {
        Some(t) => t,
        None => {
            return Err(ParseError::Row);
        },
    };
    let nb = string_to_bytes(&name);
    let dots = str_to_bytes("..");
    if eq_bytes(nb.as_slice(), dots.as_slice()) {
        return Ok(None);
    }
    let sb = string_to_bytes(&sizes);
    let emdash = str_to_bytes("\u{2014}");
    let is_dir = eq_bytes(sb.as_slice(), emdash.as_slice());
    let date = match parse_naive_datetime(mtimes.as_str(), "%Y-%m-%d %H:%M:%S") {
        Some(d) => d,
        None => {
            return Err(ParseError::Row);
        },
    };
    if is_dir {
        return Ok(Some(ListItem::new(joined, name, FileType::Directory, None, date)));
    }
    match FileSize::get_humanized(sizes.as_str()) {
        None => Err(ParseError::Row),
        Some((m, u)) => Ok(
            Some(
                ListItem::new(
                    joined,
                    name,
                    FileType::File,
                    Some(FileSize::HumanizedBinary(m, u)),
                    date,
                ),
            ),
        ),
    }
}

/// The DirectoryLister dialect parser.
#[derive(Debug, Clone, Copy)]
pub struct DirectoryListerListingParser;

impl Default for DirectoryListerListingParser {
    fn default() -> (r: DirectoryListerListingParser) {
        DirectoryListerListingParser
    }
}

impl DirectoryListerListingParser {
    /// Read one fetched page.  `url` is the final URL of the page, the base
    /// against which every entry's reference is resolved; `body` is the
    /// page text.
    pub fn get_list(&self, url: &str, body: &str) -> (r: Result<ListResult, ParseError>)
        ensures
            match dlister_rows_of(text_bytes(body@)) {
                None => r matches Err(ParseError::Page),
                Some(rows) => match r {
                    Ok(ListResult::List(items)) => spec_dlister_items(text_bytes(url@), rows)
                        == Ok::<Seq<SpecItem>, ParseError>(items_view(items@)),
                    Ok(ListResult::Redirect(_)) => false,
                    Err(e) => spec_dlister_items(text_bytes(url@), rows) == Err::<
                        Seq<SpecItem>,
                        ParseError,
                    >(e),
                },
            },
    {
        let ghost urlb = text_bytes(url@);
        let rows = match dlister_rows(body) {
            Some(rows) => rows,
            None => {
                return Err(ParseError::Page);
            },
        };
        let ghost rows_v = dlister_rows_of(text_bytes(body@))->Some_0;
        proof {
            assert(rows_v == texts4_of(rows@));
            assert(rows_v.skip(0) =~= rows_v);
        }
        let n = rows.len();
        let mut items: Vec<ListItem> = Vec::new();
        let mut i: usize = 0;
        proof {
            assert(items_view(items@) =~= Seq::<SpecItem>::empty());
        }
        while i < n
            invariant
                0 <= i <= n,
                n == rows@.len(),
                rows_v == texts4_of(rows@),
                dlister_rows_of(text_bytes(body@)) == Some(rows_v),
                urlb == text_bytes(url@),
                spec_dlister_items(urlb, rows_v) == match spec_dlister_items(
                    urlb,
                    rows_v.skip(i as int),
                ) {
                    Err(e) => Err::<Seq<SpecItem>, ParseError>(e),
                    Ok(rest) => Ok(items_view(items@) + rest),
                },
            decreases n - i,
        {
            let ghost row = rows_v[i as int];
            proof {
                assert(rows_v.skip(i as int)[0] == row);
                assert(rows_v.skip(i as int).drop_first() =~= rows_v.skip(i + 1));
                assert(text_bytes(rows@[i as int].0@) == row.0);
                assert(text_bytes(rows@[i as int].1@) == row.1);
                assert(text_bytes(rows@[i as int].2@) == row.2);
                assert(text_bytes(rows@[i as int].3@) == row.3);
            }
            match dlister_row(url, &rows[i]) {
                Err(e) => {
                    proof {
                        assert(spec_dlister_items(urlb, rows_v.skip(i as int)) == Err::<
                            Seq<SpecItem>,
                            ParseError,
                        >(e));
                    }
                    return Err(e);
                },
                Ok(None) => {
                    proof {
                        assert(spec_dlister_items(urlb, rows_v.skip(i as int))
                            == spec_dlister_items(urlb, rows_v.skip(i + 1)));
                    }
                },
                Ok(Some(item)) => {
                    let ghost items_pre = items@;
                    let ghost itv = item_view(item);
                    items.push(item);
                    proof {
                        assert(items_view(items@) =~= items_view(items_pre).push(itv));
                        assert(forall|rest: Seq<SpecItem>|
                            (items_view(items_pre).push(itv) + rest) =~= items_view(items_pre) + (
                            seq![itv] + rest));
                    }
                },
            }
            i += 1;
        }
        proof {
            assert(rows_v.skip(n as int) =~= Seq::<(Seq<u8>, Seq<u8>, Seq<u8>, Seq<u8>)>::empty());
            assert(items_view(items@) + Seq::<SpecItem>::empty() =~= items_view(items@));
        }
        Ok(ListResult::List(items))
    }
}

} // verus!
