//! Parser for the caddy file server index: `tr.file` rows whose hrefs may
//! begin with `./`, with the size in a text cell and the timestamp in an
//! ISO-8601 `datetime` attribute.

use vstd::prelude::*;

use crate::bytes::{bytes_to_string, lemma_text_bytes_len, spec_trim_leading_sub, str_to_bytes,
    string_to_bytes, text_bytes, trim_leading_sub};
use crate::listing::{spec_humanized, FileSize, FileType, ListItem};
use crate::parser::dom::{caddy_rows, caddy_rows_of, texts3_of};
use crate::parser::{item_view, items_view, spec_ends_with_slash, spec_real_name_from_href};
use crate::parser::{spec_trimmed, string_ends_with_slash, trimmed_string};
use crate::parser::{ListResult, ParseError, SpecItem};
use crate::timestamp::{parse_naive_datetime, parsed_datetime};
use crate::web::{joined_url, url_join};

verus! {

/// The timestamp format of this dialect: an ISO-8601 instant.
pub open spec fn caddy_date_format() -> Seq<u8> {
    text_bytes("%Y-%m-%dT%H:%M:%S%Z"@)
}

/// The entry name of one row: the href percent-decoded and stripped of
/// trailing slashes, then of the `./` the server prepends.
pub open spec fn spec_caddy_name(href: Seq<u8>) -> Option<Seq<u8>> {
    match spec_real_name_from_href(href) {
        None => None,
        Some(base) => {
            let stripped = spec_trim_leading_sub(base, text_bytes("./"@));
            if vstd::utf8::valid_utf8(stripped) {
                Some(stripped)
            } else {
                None
            }
        },
    }
}

/// The reading of one row: an empty size cell means the row shows none, and
/// the timestamp comes from the `datetime` attribute.
pub open spec fn spec_caddy_row(urlb: Seq<u8>, row: (Seq<u8>, Seq<u8>, Seq<u8>)) -> Result<
    Option<SpecItem>,
    ParseError,
> {
    let href = row.0;
    match spec_caddy_name(href) {
        None => Err(ParseError::Row),
        Some(name) => match joined_url(urlb, href) {
            None => Err(ParseError::Url),
            Some(joined) => {
                let type_ = if spec_ends_with_slash(joined) {
                    FileType::Directory
                } else {
                    FileType::File
                };
                match spec_caddy_size(row.1) {
                    None => Err(ParseError::Row),
                    Some(size) => match spec_trimmed(row.2) {
                        None => Err(ParseError::Row),
                        Some(datetime) => match parsed_datetime(datetime, caddy_date_format()) {
                            None => Err(ParseError::Row),
                            Some(secs) => Ok(
                                Some(
                                    SpecItem {
                                        url: joined,
                                        name: name,
                                        type_: type_,
                                        size: size,
                                        mtime: secs,
                                        skip_check: false,
                                    },
                                ),
                            ),
                        },
                    },
                }
            },
        },
    }
}

/// The reading of a size cell: a row without one gives no size, anything
/// else must be a humanised binary token after trimming.
pub open spec fn spec_caddy_size(sizeb: Seq<u8>) -> Option<Option<FileSize>> {
    if sizeb.len() == 0 {
        Some(None)
    } else {
        match spec_trimmed(sizeb) {
            None => None,
            Some(t) => match spec_humanized(t) {
                None => None,
                Some((m, u)) => Some(Some(FileSize::HumanizedBinary(m, u))),
            },
        }
    }
}

/// The entries read from a whole page.
pub open spec fn spec_caddy_items(urlb: Seq<u8>, rows: Seq<(Seq<u8>, Seq<u8>, Seq<u8>)>) -> Result<
    Seq<SpecItem>,
    ParseError,
>
    decreases rows.len(),
{
    if rows.len() == 0 {
        Ok(Seq::empty())
    } else {
        match spec_caddy_row(urlb, rows[0]) {
            Err(e) => Err(e),
            Ok(None) => spec_caddy_items(urlb, rows.drop_first()),
            Ok(Some(it)) => match spec_caddy_items(urlb, rows.drop_first()) {
                Err(e) => Err(e),
                Ok(rest) => Ok(seq![it] + rest),
            },
        }
    }
}

/// Read the entry name of one row.
fn caddy_name(href: &String) -> (r: Option<String>)
    ensures
        match r {
            Some(name) => spec_caddy_name(text_bytes(href@)) == Some(text_bytes(name@)),
            None => spec_caddy_name(text_bytes(href@)) is None,
        },
{
    proof {
        reveal_strlit("./");
        lemma_text_bytes_len("./"@);
    }
    let base = match crate::parser::get_real_name_from_href(href) {
        Some(b) => b,
        None => {
            return None;
        },
    };
    let bb = string_to_bytes(&base);
    let dotslash = str_to_bytes("./");
    let stripped = trim_leading_sub(bb.as_slice(), dotslash.as_slice());
    let ghost sv = stripped@;
    match bytes_to_string(stripped) {
        Some(name) => {
            proof {
                vstd::utf8::encode_utf8_valid_utf8(name@);
            }
            Some(name)
        },
        None => {
            proof {
                assert(!vstd::utf8::valid_utf8(sv));
            }
            None
        },
    }
}

/// Read the size cell of one row.
fn caddy_size(sizes: &String) -> (r: Option<Option<FileSize>>)
    ensures
        r == spec_caddy_size(text_bytes(sizes@)),
{
    let sb = string_to_bytes(sizes);
    if sb.len() == 0 {
        return Some(None);
    }
    let trimmed = match trimmed_string(sizes) {
        Some(t) => t,
        None => {
            return None;
        },
    };
    match FileSize::get_humanized(trimmed.as_str()) {
        None => None,
        Some((m, u)) => Some(Some(FileSize::HumanizedBinary(m, u))),
    }
}

/// Read one row against the page URL.
fn caddy_row(url: &str, row: &(String, String, String)) -> (r: Result<Option<ListItem>, ParseError>)
    ensures
        ({
            let rowb = (text_bytes(row.0@), text_bytes(row.1@), text_bytes(row.2@));
            match r {
                Ok(Some(item)) => spec_caddy_row(text_bytes(url@), rowb) == Ok::<
                    Option<SpecItem>,
                    ParseError,
                >(Some(item_view(item))),
                Ok(None) => spec_caddy_row(text_bytes(url@), rowb) == Ok::<
                    Option<SpecItem>,
                    ParseError,
                >(None),
                Err(e) => spec_caddy_row(text_bytes(url@), rowb) == Err::<
                    Option<SpecItem>,
                    ParseError,
                >(e),
            }
        }),
{
    let name = match caddy_name(&row.0) {
        Some(name) => name,
        None => {
            return Err(ParseError::Row);
        },
    };
    let joined = match url_join(url, row.0.as_str()) {
        Some(j) => j,
        None => {
            return Err(ParseError::Url);
        },
    };
    let type_ = if string_ends_with_slash(&joined) {
        FileType::Directory
    } else {
        FileType::File
    };
    let size = match caddy_size(&row.1) {
        Some(s) => s,
        None => {
            return Err(ParseError::Row);
        },
    };
    let datetime = match trimmed_string(&row.2) {
        Some(t) => t,
        None => {
            return Err(ParseError::Row);
        },
    };
    let date = match parse_naive_datetime(datetime.as_str(), "%Y-%m-%dT%H:%M:%S%Z") {
        Some(d) => d,
        None => {
            return Err(ParseError::Row);
        },
    };
    Ok(Some(ListItem::new(joined, name, type_, size, date)))
}

/// The caddy dialect parser.
#[derive(Debug, Clone, Copy)]
pub struct CaddyListingParser;

impl Default for CaddyListingParser {
    fn default() -> (r: CaddyListingParser) {
        CaddyListingParser
    }
}

impl CaddyListingParser {
    /// Read one fetched page.  `url` is the final URL of the page, the base
    /// against which every entry's reference is resolved; `body` is the
    /// page text.
    pub fn get_list(&self, url: &str, body: &str) -> (r: Result<ListResult, ParseError>)
        ensures
            match caddy_rows_of(text_bytes(body@)) {
                None => r matches Err(ParseError::Page),
                Some(rows) => match r {
                    Ok(ListResult::List(items)) => spec_caddy_items(text_bytes(url@), rows) == Ok::<
                        Seq<SpecItem>,
                        ParseError,
                    >(items_view(items@)),
                    Ok(ListResult::Redirect(_)) => false,
                    Err(e) => spec_caddy_items(text_bytes(url@), rows) == Err::<
                        Seq<SpecItem>,
                        ParseError,
                    >(e),
                },
            },
    {
        let ghost urlb = text_bytes(url@);
        let rows = match caddy_rows(body) {
            Some(rows) => rows,
            None => {
                return Err(ParseError::Page);
            },
        };
        let ghost rows_v = caddy_rows_of(text_bytes(body@))->Some_0;
        proof {
            assert(rows_v == texts3_of(rows@));
            assert(rows_v.skip(0) =~= rows_v);
        }
        let n = rows.len();
        let mut items: Vec<ListItem> = Vec::new();
        let mut i: usize = 0;
        proof {
            assert(items_view(items@) =~= Seq::<SpecItem>::empty());
        }
        while i < n
            invariant
                0 <= i <= n,
                n == rows@.len(),
                rows_v == texts3_of(rows@),
                caddy_rows_of(text_bytes(body@)) == Some(rows_v),
                urlb == text_bytes(url@),
                spec_caddy_items(urlb, rows_v) == match spec_caddy_items(
                    urlb,
                    rows_v.skip(i as int),
                ) {
                    Err(e) => Err::<Seq<SpecItem>, ParseError>(e),
                    Ok(rest) => Ok(items_view(items@) + rest),
                },
            decreases n - i,
        {
            let ghost row = rows_v[i as int];
            proof {
                assert(rows_v.skip(i as int)[0] == row);
                assert(rows_v.skip(i as int).drop_first() =~= rows_v.skip(i + 1));
                assert(text_bytes(rows@[i as int].0@) == row.0);
                assert(text_bytes(rows@[i as int].1@) == row.1);
                assert(text_bytes(rows@[i as int].2@) == row.2);
            }
            match caddy_row(url, &rows[i]) {
                Err(e) => {
                    proof {
                        assert(spec_caddy_items(urlb, rows_v.skip(i as int)) == Err::<
                            Seq<SpecItem>,
                            ParseError,
                        >(e));
                    }
                    return Err(e);
                },
                Ok(None) => {
                    proof {
                        assert(spec_caddy_items(urlb, rows_v.skip(i as int)) == spec_caddy_items(
                            urlb,
                            rows_v.skip(i + 1),
                        ));
                    }
                },
                Ok(Some(item)) => {
                    let ghost items_pre = items@;
                    let ghost itv = item_view(item);
                    items.push(item);
                    proof {
                        assert(items_view(items@) =~= items_view(items_pre).push(itv));
                        assert(forall|rest: Seq<SpecItem>|
                            (items_view(items_pre).push(itv) + rest) =~= items_view(items_pre) + (
                            seq![itv] + rest));
                    }
                },
            }
            i += 1;
        }
        proof {
            assert(rows_v.skip(n as int) =~= Seq::<(Seq<u8>, Seq<u8>, Seq<u8>)>::empty());
            assert(items_view(items@) + Seq::<SpecItem>::empty() =~= items_view(items@));
        }
        Ok(ListResult::List(items))
    }
}

} // verus!
