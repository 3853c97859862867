//! Parser for the static docker registry index: anchors with adjacent
//! metadata text, and relocations read by the caller from the response
//! itself rather than followed by the client.

use vstd::prelude::*;

use crate::bytes::{bytes_to_string, eq_bytes, spec_trim_trailing_sub, str_to_bytes,
    string_to_bytes, text_bytes, trim_trailing_sub};
use crate::listing::{spec_humanized, spec_trim_spaces_back, spec_trim_spaces_front, trim_spaces,
    FileSize, FileType, ListItem, NaiveDateTime};
use crate::parser::dom::{anchor_rows, anchor_rows_of, texts3_of};
use crate::parser::{item_view, items_view, spec_ends_with_slash, spec_name_from_href};
use crate::parser::{string_ends_with_slash, ListResult, ParseError, SpecItem};
use crate::rematch::{regex_captures_of, regex_valid, CompiledRegex};
use crate::timestamp::{parse_naive_datetime, parsed_datetime};
use crate::web::{joined_url, url_join, url_path, url_path_of, url_set_path, url_with_path_of};

verus! {

/// The pattern that reads the metadata text after an anchor: a
/// `YYYY-MM-DD HH:MM` timestamp with optional seconds, whitespace, then the
/// size token.
pub open spec fn docker_pattern() -> Seq<u8> {
    text_bytes("(\\d{4}-\\d{2}-\\d{2} \\d{2}:\\d{2}(:\\d{2})?)\\s+([\\d \\w\\.-]+)$"@)
}

/// The target of a relocation: the `Location` header value, with a trailing
/// `/index.html` turned back into a bare directory reference.
pub open spec fn spec_redirect_target(loc: Seq<u8>) -> Option<Seq<u8>> {
    let pat = text_bytes("/index.html"@);
    if crate::bytes::occurs_at(loc, pat, loc.len() - pat.len()) {
        let trimmed = spec_trim_trailing_sub(loc, pat).push(47);
        if vstd::utf8::valid_utf8(trimmed) {
            Some(trimmed)
        } else {
            None
        }
    } else {
        Some(loc)
    }
}

/// The timestamp read from one metadata capture: seconds when given,
/// otherwise whole minutes.
pub open spec fn spec_docker_datetime(datestr: Seq<u8>) -> Option<int> {
    match crate::timestamp::parsed_datetime(datestr, text_bytes("%Y-%m-%d %H:%M:%S"@)) {
        Some(t) => Some(t),
        None => crate::timestamp::parsed_datetime(datestr, text_bytes("%Y-%m-%d %H:%M"@)),
    }
}

/// The reading of one anchor row of a docker index page.
pub open spec fn spec_docker_row(
    urlb: Seq<u8>,
    href: Seq<u8>,
    inner: Seq<u8>,
    tail: Seq<u8>,
    pat: Seq<u8>,
) -> Result<Option<SpecItem>, ParseError> {
    match spec_name_from_href(href) {
        None => Err(ParseError::Row),
        Some(name) => match joined_url(urlb, href) {
            None => Err(ParseError::Url),
            Some(joined) => if name == text_bytes(".."@) {
                Ok(None)
            } else {
                match spec_docker_meta(joined, inner, tail, pat) {
                    Err(e) => Err(e),
                    Ok((type_, size, mtime)) => match spec_docker_final_url(joined, type_) {
                        None => Err(ParseError::Url),
                        Some(final_url) => Ok(
                            Some(
                                SpecItem {
                                    url: final_url,
                                    name: name,
                                    type_: type_,
                                    size: size,
                                    mtime: mtime,
                                    skip_check: false,
                                },
                            ),
                        ),
                    },
                }
            },
        },
    }
}

/// Kind, size and timestamp of one row: a reference or displayed name with a
/// trailing slash is a directory with no metadata; otherwise the adjacent
/// text must match the metadata pattern, and a size of `-` still marks a
/// directory.
pub open spec fn spec_docker_meta(
    joined: Seq<u8>,
    inner: Seq<u8>,
    tail: Seq<u8>,
    pat: Seq<u8>,
) -> Result<(FileType, Option<FileSize>, int), ParseError> {
    if spec_ends_with_slash(joined) || spec_ends_with_slash(inner) {
        Ok((FileType::Directory, None, 0))
    } else {
        let meta = spec_trim_spaces_front(spec_trim_spaces_back(tail));
        if !vstd::utf8::valid_utf8(meta) {
            Err(ParseError::Row)
        } else {
            match regex_captures_of(pat, meta) {
                None => Err(ParseError::Row),
                Some(groups) => if groups.len() < 4 {
                    Err(ParseError::Row)
                } else {
                    match spec_docker_datetime(groups[1]) {
                        None => Err(ParseError::Row),
                        Some(secs) => if groups[3] == text_bytes("-"@) {
                            Ok((FileType::Directory, None, secs))
                        } else {
                            match spec_humanized(groups[3]) {
                                None => Err(ParseError::Row),
                                Some((m, u)) => Ok(
                                    (
                                        FileType::File,
                                        Some(FileSize::HumanizedBinary(m, u)),
                                        secs,
                                    ),
                                ),
                            }
                        },
                    }
                },
            }
        }
    }
}

/// The URL of one entry: a directory whose reference lacks the trailing
/// slash gets one appended to its path.
pub open spec fn spec_docker_final_url(joined: Seq<u8>, type_: FileType) -> Option<Seq<u8>> {
    if type_ is Directory {
        match url_path_of(joined) {
            None => None,
            Some(path) => if spec_ends_with_slash(path) {
                Some(joined)
            } else {
                let newpath = path.push(47);
                if !vstd::utf8::valid_utf8(newpath) {
                    None
                } else {
                    url_with_path_of(joined, newpath)
                }
            },
        }
    } else {
        Some(joined)
    }
}

/// The entries read from a whole page.
pub open spec fn spec_docker_items(
    urlb: Seq<u8>,
    rows: Seq<(Seq<u8>, Seq<u8>, Seq<u8>)>,
    pat: Seq<u8>,
) -> Result<Seq<SpecItem>, ParseError>
    decreases rows.len(),
{
    if rows.len() == 0 {
        Ok(Seq::empty())
    } else {
        match spec_docker_row(urlb, rows[0].0, rows[0].1, rows[0].2, pat) {
            Err(e) => Err(e),
            Ok(None) => spec_docker_items(urlb, rows.drop_first(), pat),
            Ok(Some(it)) => match spec_docker_items(urlb, rows.drop_first(), pat) {
                Err(e) => Err(e),
                Ok(rest) => Ok(seq![it] + rest),
            },
        }
    }
}

/// Kind, size and timestamp of one row, per [`spec_docker_meta`].
fn docker_meta(joined: &String, inner: &String, tail: &String, re: &CompiledRegex) -> (r: Result<
    (FileType, Option<FileSize>, NaiveDateTime),
    ParseError,
>)
    ensures
        match r {
            Ok((t, s, d)) => spec_docker_meta(
                text_bytes(joined@),
                text_bytes(inner@),
                text_bytes(tail@),
                re@,
            ) == Ok::<(FileType, Option<FileSize>, int), ParseError>((t, s, d.secs as int)),
            Err(e) => spec_docker_meta(
                text_bytes(joined@),
                text_bytes(inner@),
                text_bytes(tail@),
                re@,
            ) == Err::<(FileType, Option<FileSize>, int), ParseError>(e),
        },
{
    if string_ends_with_slash(joined) || string_ends_with_slash(inner) {
        return Ok((FileType::Directory, None, NaiveDateTime::from_timestamp(0)));
    }
    let tail_b = string_to_bytes(tail);
    let meta_b = trim_spaces(tail_b.as_slice());
    let ghost meta_v = meta_b@;
    let meta = match bytes_to_string(meta_b) {
        Some(m) => m,
        None => {
            proof {
                assert(!vstd::utf8::valid_utf8(meta_v));
            }
            return Err(ParseError::Row);
        },
    };
    proof {
        vstd::utf8::encode_utf8_valid_utf8(meta@);
    }
    let groups = match re.captures(meta.as_str()) {
        Some(g) => g,
        None => {
            return Err(ParseError::Row);
        },
    };
    if groups.len() < 4 {
        return Err(ParseError::Row);
    }
    proof {
        assert(crate::bytes::texts_of(groups@)[1] == text_bytes(groups@[1]@));
        assert(crate::bytes::texts_of(groups@)[3] == text_bytes(groups@[3]@));
    }
    let date = match parse_naive_datetime(groups[1].as_str(), "%Y-%m-%d %H:%M:%S") {
        Some(d) => d,
        None => {
            match parse_naive_datetime(groups[1].as_str(), "%Y-%m-%d %H:%M") {
                Some(d) => d,
                None => {
                    return Err(ParseError::Row);
                },
            }
        },
    };
    let sb = string_to_bytes(&groups[3]);
    let dash = str_to_bytes("-");
    if eq_bytes(sb.as_slice(), dash.as_slice()) {
        return Ok((FileType::Directory, None, date));
    }
    match FileSize::get_humanized(groups[3].as_str()) {
        None => Err(ParseError::Row),
        Some((m, u)) => Ok((FileType::File, Some(FileSize::HumanizedBinary(m, u)), date)),
    }
}

/// The URL of one entry, per [`spec_docker_final_url`].
fn docker_final_url(joined: String, type_: &FileType) -> (r: Option<String>)
    ensures
        match r {
            Some(u) => spec_docker_final_url(text_bytes(joined@), *type_) == Some(text_bytes(u@)),
            None => spec_docker_final_url(text_bytes(joined@), *type_) is None,
        },
{
    if !matches!(type_, FileType::Directory) {
        return Some(joined);
    }
    let path = match url_path(joined.as_str()) {
        Some(p) => p,
        None => {
            return None;
        },
    };
    if string_ends_with_slash(&path) {
        return Some(joined);
    }
    let mut pb = string_to_bytes(&path);
    let ghost pb_pre = pb@;
    pb.push(47);
    proof {
        assert(pb@ =~= pb_pre.push(47));
    }
    let ghost npv = pb@;
    let newpath = match bytes_to_string(pb) {
        Some(p) => p,
        None => {
            proof {
                assert(!vstd::utf8::valid_utf8(npv));
            }
            return None;
        },
    };
    proof {
        vstd::utf8::encode_utf8_valid_utf8(newpath@);
    }
    url_set_path(joined.as_str(), newpath.as_str())
}

/// Read one anchor row against the page URL.
fn docker_row(url: &str, href: &String, inner: &String, tail: &String, re: &CompiledRegex) -> (r:
    Result<Option<ListItem>, ParseError>)
    ensures
        match r {
            Ok(Some(item)) => spec_docker_row(
                text_bytes(url@),
                text_bytes(href@),
                text_bytes(inner@),
                text_bytes(tail@),
                re@,
            ) == Ok::<Option<SpecItem>, ParseError>(Some(item_view(item))),
            Ok(None) => spec_docker_row(
                text_bytes(url@),
                text_bytes(href@),
                text_bytes(inner@),
                text_bytes(tail@),
                re@,
            ) == Ok::<Option<SpecItem>, ParseError>(None),
            Err(e) => spec_docker_row(
                text_bytes(url@),
                text_bytes(href@),
                text_bytes(inner@),
                text_bytes(tail@),
                re@,
            ) == Err::<Option<SpecItem>, ParseError>(e),
        },
{
    let name = match crate::parser::name_from_href(href) {
        Some(name) => name,
        None => {
            return Err(ParseError::Row);
        },
    };
    let joined = match url_join(url, href.as_str()) {
        Some(j) => j,
        None => {
            return Err(ParseError::Url);
        },
    };
    let nb = string_to_bytes(&name);
    let dots = str_to_bytes("..");
    if eq_bytes(nb.as_slice(), dots.as_slice()) {
        return Ok(None);
    }
    let (type_, size, date) = match docker_meta(&joined, inner, tail, re) {
        Ok(m) => m,
        Err(e) => {
            return Err(e);
        },
    };
    let final_url = match docker_final_url(joined, &type_) {
        Some(u) => u,
        None => {
            return Err(ParseError::Url);
        },
    };
    Ok(Some(ListItem::new(final_url, name, type_, size, date)))
}

/// The docker dialect parser: carries the compiled metadata pattern.
#[derive(Debug)]
pub struct DockerListingParser {
    metadata_regex: Option<CompiledRegex>,
}

impl DockerListingParser {
    /// The pattern this parser matches metadata against, when compilation
    /// succeeded.
    pub closed spec fn pattern(&self) -> Option<Seq<u8>> {
        match self.metadata_regex {
            Some(re) => Some(re@),
            None => None,
        }
    }

    /// This dialect reads relocations itself.
    pub fn is_auto_redirect(&self) -> (r: bool)
        ensures
            !r,
    {
        false
    }

    /// The listing outcome of a relocation response: the `Location` header's
    /// value, with a trailing `/index.html` turned back into a directory
    /// reference.
    pub fn redirect(&self, location: &str) -> (r: Result<ListResult, ParseError>)
        ensures
            match r {
                Ok(ListResult::Redirect(target)) => spec_redirect_target(text_bytes(location@))
                    == Some(text_bytes(target@)),
                Ok(ListResult::List(_)) => false,
                Err(_) => spec_redirect_target(text_bytes(location@)) is None,
            },
    {
        let lb = str_to_bytes(location);
        let suffix = str_to_bytes("/index.html");
        proof {
            reveal_strlit("/index.html");
            crate::bytes::lemma_text_bytes_len("/index.html"@);
        }
        if !crate::bytes::ends_with_bytes(lb.as_slice(), suffix.as_slice()) {
            return Ok(ListResult::Redirect(location.to_owned()));
        }
        let mut trimmed = trim_trailing_sub(lb.as_slice(), suffix.as_slice());
        let ghost t_pre = trimmed@;
        trimmed.push(47);
        proof {
            assert(trimmed@ =~= t_pre.push(47));
        }
        let ghost tv = trimmed@;
        match bytes_to_string(trimmed) {
            Some(target) => {
                proof {
                    vstd::utf8::encode_utf8_valid_utf8(target@);
                }
                Ok(ListResult::Redirect(target))
            },
            None => {
                proof {
                    assert(!vstd::utf8::valid_utf8(tv));
                }
                Err(ParseError::Url)
            },
        }
    }
}

impl Default for DockerListingParser {
    fn default() -> (r: DockerListingParser)
        ensures
            r.pattern() matches Some(p) ==> p == docker_pattern(),
            (r.pattern() is Some) == regex_valid(docker_pattern()),
    {
        DockerListingParser {
            metadata_regex: CompiledRegex::compile(
                "(\\d{4}-\\d{2}-\\d{2} \\d{2}:\\d{2}(:\\d{2})?)\\s+([\\d \\w\\.-]+)$",
            ),
        }
    }
}

impl DockerListingParser {
    /// Read one fetched page that was not a relocation.  `url` is the final
    /// URL of the page, the base against which every entry's reference is
    /// resolved; `body` is the page text.
    #[verifier::rlimit(50)]
    pub fn get_list(&self, url: &str, body: &str) -> (r: Result<ListResult, ParseError>)
        ensures
            match self.pattern() {
                None => r matches Err(ParseError::Page),
                Some(pat) => match r {
                    Ok(ListResult::List(items)) => spec_docker_items(
                        text_bytes(url@),
                        anchor_rows_of(text_bytes(body@)),
                        pat,
                    ) == Ok::<Seq<SpecItem>, ParseError>(items_view(items@)),
                    Ok(ListResult::Redirect(_)) => false,
                    Err(e) => spec_docker_items(
                        text_bytes(url@),
                        anchor_rows_of(text_bytes(body@)),
                        pat,
                    ) == Err::<Seq<SpecItem>, ParseError>(e),
                },
            },
    {
        let re = match &self.metadata_regex {
            Some(re) => re,
            None => {
                return Err(ParseError::Page);
            },
        };
        let ghost pat = re@;
        let ghost urlb = text_bytes(url@);
        let rows = anchor_rows(body);
        let ghost rows_v = anchor_rows_of(text_bytes(body@));
        proof {
            assert(rows_v == texts3_of(rows@));
            assert(rows_v.skip(0) =~= rows_v);
        }
        let n = rows.len();
        let mut items: Vec<ListItem> = Vec::new();
        let mut i: usize = 0;
        proof {
            assert(items_view(items@) =~= Seq::<SpecItem>::empty());
        }
        while i < n
            invariant
                0 <= i <= n,
                n == rows@.len(),
                rows_v == texts3_of(rows@),
                rows_v == anchor_rows_of(text_bytes(body@)),
                urlb == text_bytes(url@),
                pat == re@,
                self.pattern() == Some(re@),
                spec_docker_items(urlb, rows_v, pat) == match spec_docker_items(
                    urlb,
                    rows_v.skip(i as int),
                    pat,
                ) {
                    Err(e) => Err::<Seq<SpecItem>, ParseError>(e),
                    Ok(rest) => Ok(items_view(items@) + rest),
                },
            decreases n - i,
        {
            let ghost row = rows_v[i as int];
            proof {
                assert(rows_v.skip(i as int)[0] == row);
                assert(rows_v.skip(i as int).drop_first() =~= rows_v.skip(i + 1));
                assert(text_bytes(rows@[i as int].0@) == row.0);
                assert(text_bytes(rows@[i as int].1@) == row.1);
                assert(text_bytes(rows@[i as int].2@) == row.2);
            }
            match docker_row(url, &rows[i].0, &rows[i].1, &rows[i].2, re) {
                Err(e) => {
                    proof {
                        assert(spec_docker_items(urlb, rows_v.skip(i as int), pat) == Err::<
                            Seq<SpecItem>,
                            ParseError,
                        >(e));
                    }
                    return Err(e);
                },
                Ok(None) => {
                    proof {
                        assert(spec_docker_items(urlb, rows_v.skip(i as int), pat)
                            == spec_docker_items(urlb, rows_v.skip(i + 1), pat));
                    }
                },
                Ok(Some(item)) => {
                    let ghost items_pre = items@;
                    let ghost itv = item_view(item);
                    items.push(item);
                    proof {
                        assert(items_view(items@) =~= items_view(items_pre).push(itv));
                        assert(forall|rest: Seq<SpecItem>|
                            (items_view(items_pre).push(itv) + rest) =~= items_view(items_pre) + (
                            seq![itv] + rest));
                    }
                },
            }
            i += 1;
        }
        proof {
            assert(rows_v.skip(n as int) =~= Seq::<(Seq<u8>, Seq<u8>, Seq<u8>)>::empty());
            assert(items_view(items@) + Seq::<SpecItem>::empty() =~= items_view(items@));
        }
        Ok(ListResult::List(items))
    }
}

} // verus!
