//! Trusted boundary around the `scraper` crate: each supported index-page
//! dialect has one extraction query that turns the parsed HTML document into
//! plain rows of text, named as a function of the page body alone.

use vstd::prelude::*;

use scraper::{Html, Selector};

use crate::bytes::text_bytes;

verus! {

/// The byte views of a sequence of string triples.
pub open spec fn texts3_of(vs: Seq<(String, String, String)>) -> Seq<(Seq<u8>, Seq<u8>, Seq<u8>)> {
    Seq::new(vs.len(), |i: int| (text_bytes(vs[i].0@), text_bytes(vs[i].1@), text_bytes(vs[i].2@)))
}

/// The byte views of a sequence of string quadruples.
pub open spec fn texts4_of(vs: Seq<(String, String, String, String)>) -> Seq<
    (Seq<u8>, Seq<u8>, Seq<u8>, Seq<u8>),
> {
    Seq::new(
        vs.len(),
        |i: int|
            (
                text_bytes(vs[i].0@),
                text_bytes(vs[i].1@),
                text_bytes(vs[i].2@),
                text_bytes(vs[i].3@),
            ),
    )
}

/// The anchors of the page that carry an `href`, in document order: for each,
/// its `href`, its inner HTML, and the text node right after it (empty when
/// there is none).
pub uninterp spec fn anchor_rows_of(body: Seq<u8>) -> Seq<(Seq<u8>, Seq<u8>, Seq<u8>)>;

/// Relies on `scraper::Html::parse_document` and the `a` selector: the
/// anchors with an `href`, each with its inner HTML and trailing text.
#[verifier::external_body]
pub fn anchor_rows(body: &str) -> (r: Vec<(String, String, String)>)
    ensures
        texts3_of(r@) == anchor_rows_of(text_bytes(body@)),
{
    let doc = Html::parse_document(body);
    let sel = Selector::parse("a").unwrap();
    doc.select(&sel).filter_map(|e| e.value().attr("href").map(|href| (
        href.to_string(),
        e.inner_html(),
        e.next_sibling().and_then(|s| s.value().as_text()).map(|t| t.to_string()).unwrap_or_default(),
    ))).collect()
}

/// The rows of the fancy-index table: for each `tr.odd`/`tr.even` row under
/// `#indexlist`, the name cell anchor's inner HTML, its `href`, the
/// last-modified cell and the size cell; `None` when the page does not carry
/// that structure.
pub uninterp spec fn apache_rows_of(body: Seq<u8>) -> Option<
    Seq<(Seq<u8>, Seq<u8>, Seq<u8>, Seq<u8>)>,
>;

/// Relies on `scraper` selectors over `#indexlist`, `tr.odd, tr.even`,
/// `td.indexcolname a`, `td.indexcollastmod` and `td.indexcolsize`.
#[verifier::external_body]
pub fn apache_rows(body: &str) -> (r: Option<Vec<(String, String, String, String)>>)
    ensures
        match r {
            Some(rows) => apache_rows_of(text_bytes(body@)) == Some(texts4_of(rows@)),
            None => apache_rows_of(text_bytes(body@)) is None,
        },
{
    let doc = Html::parse_document(body);
    let list = doc.select(&Selector::parse("#indexlist").unwrap()).next()?;
    let mut rows = Vec::new();
    for e in list.select(&Selector::parse("tr.odd, tr.even").unwrap()) {
        let a = e.select(&Selector::parse("td.indexcolname a").unwrap()).next()?;
        let m = e.select(&Selector::parse("td.indexcollastmod").unwrap()).next()?;
        let s = e.select(&Selector::parse("td.indexcolsize").unwrap()).next()?;
        rows.push((a.inner_html(), a.value().attr("href")?.to_string(), m.inner_html(), s.inner_html()));
    }
    Some(rows)
}

/// The rows of the first `tbody`: for each `tr`, its anchor's inner HTML,
/// the anchor's `href`, and the `.m` and `.s` cells; `None` when the page
/// has no `tbody` or a row lacks one of those parts.
pub uninterp spec fn lighttpd_rows_of(body: Seq<u8>) -> Option<
    Seq<(Seq<u8>, Seq<u8>, Seq<u8>, Seq<u8>)>,
>;

/// Relies on `scraper` selectors over `tbody`, `tr`, `a`, `.m` and `.s`.
#[verifier::external_body]
pub fn lighttpd_rows(body: &str) -> (r: Option<Vec<(String, String, String, String)>>)
    ensures
        match r {
            Some(rows) => lighttpd_rows_of(text_bytes(body@)) == Some(texts4_of(rows@)),
            None => lighttpd_rows_of(text_bytes(body@)) is None,
        },
{
    let doc = Html::parse_document(body);
    let tbody = doc.select(&Selector::parse("tbody").unwrap()).next()?;
    let mut rows = Vec::new();
    for e in tbody.select(&Selector::parse("tr").unwrap()) {
        let a = e.select(&Selector::parse("a").unwrap()).next()?;
        let m = e.select(&Selector::parse(".m").unwrap()).next()?;
        let s = e.select(&Selector::parse(".s").unwrap()).next()?;
        rows.push((a.inner_html(), a.value().attr("href")?.to_string(), m.inner_html(), s.inner_html()));
    }
    Some(rows)
}

/// The entries of a directory-lister page: for each anchor under the second
/// `li` of the first `ul`, its `href`, the name, size and timestamp cells;
/// `None` when the page does not carry that structure.
pub uninterp spec fn dlister_rows_of(body: Seq<u8>) -> Option<
    Seq<(Seq<u8>, Seq<u8>, Seq<u8>, Seq<u8>)>,
>;

/// Relies on `scraper` selectors over `ul`, `li`, `a` and the class-named
/// name, size and timestamp cells.
#[verifier::external_body]
pub fn dlister_rows(body: &str) -> (r: Option<Vec<(String, String, String, String)>>)
    ensures
        match r {
            Some(rows) => dlister_rows_of(text_bytes(body@)) == Some(texts4_of(rows@)),
            None => dlister_rows_of(text_bytes(body@)) is None,
        },
{
    let doc = Html::parse_document(body);
    let ul = doc.select(&Selector::parse("ul").unwrap()).next()?;
    let li = ul.select(&Selector::parse("li").unwrap()).nth(1)?;
    let mut rows = Vec::new();
    for e in li.select(&Selector::parse("a").unwrap()) {
        rows.push((
            e.value().attr("href")?.to_string(),
            e.select(&Selector::parse("div.flex-1.truncate").unwrap()).next()?.inner_html(),
            e.select(&Selector::parse("div.hidden.whitespace-nowrap.text-right.mx-2").unwrap()).next()?.inner_html(),
            e.select(&Selector::parse("div.hidden.whitespace-nowrap.text-right.truncate.ml-2").unwrap()).next()?.inner_html(),
        ));
    }
    Some(rows)
}

/// The `tr.file` rows of a caddy page: for each, the anchor's `href`, the
/// size bar's text (empty when the row has none) and the `datetime`
/// attribute of its timestamp; `None` when a row lacks its anchor or
/// timestamp.
pub uninterp spec fn caddy_rows_of(body: Seq<u8>) -> Option<Seq<(Seq<u8>, Seq<u8>, Seq<u8>)>>;

/// Relies on `scraper` selectors over `tr.file`, `td a`, the size bar text
/// and `td.timestamp time[datetime]`.
#[verifier::external_body]
pub fn caddy_rows(body: &str) -> (r: Option<Vec<(String, String, String)>>)
    ensures
        match r {
            Some(rows) => caddy_rows_of(text_bytes(body@)) == Some(texts3_of(rows@)),
            None => caddy_rows_of(text_bytes(body@)) is None,
        },
{
    let doc = Html::parse_document(body);
    let mut rows = Vec::new();
    for e in doc.select(&Selector::parse("tr.file").unwrap()) {
        rows.push((
            e.select(&Selector::parse("td a").unwrap()).next()?.value().attr("href")?.to_string(),
            e.select(&Selector::parse("td.size div.sizebar div.sizebar-text").unwrap()).next().map(|s| s.inner_html()).unwrap_or_default(),
            e.select(&Selector::parse("td.timestamp time").unwrap()).next()?.value().attr("datetime")?.to_string(),
        ));
    }
    Some(rows)
}

} // verus!
