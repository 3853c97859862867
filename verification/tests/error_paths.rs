//! The error variants, each reached from an input that raises it.

use tsumugu::extensions::ExtensionError;
use tsumugu::parser::{ListResult, ParseError};

#[test]
fn page_without_the_table_is_a_page_error() {
    let parser = tsumugu::parser::apache_f2::ApacheF2ListingParser::default();
    let r = parser.get_list("http://up.test/d/", "<html><body>nothing here</body></html>");
    assert_eq!(r.unwrap_err(), ParseError::Page);
    let parser = tsumugu::parser::lighttpd::LighttpdListingParser::default();
    let r = parser.get_list("http://up.test/d/", "<html><body>no tbody</body></html>");
    assert_eq!(r.unwrap_err(), ParseError::Page);
}

#[test]
fn unreadable_metadata_is_a_row_error() {
    let body = "<pre><a href=\"file.bin\">file.bin</a> not a date at all\n</pre>";
    let parser = tsumugu::parser::nginx::NginxListingParser::default();
    let r = parser.get_list("http://up.test/d/", body);
    assert_eq!(r.unwrap_err(), ParseError::Row);
}

#[test]
fn unresolvable_reference_is_a_url_error() {
    let body = "<pre><a href=\"http://[bad\">x</a> 09-Oct-2015 16:12 1\n</pre>";
    let parser = tsumugu::parser::nginx::NginxListingParser::default();
    let r = parser.get_list("http://up.test/d/", body);
    assert_eq!(r.unwrap_err(), ParseError::Url);
}

#[test]
fn empty_page_lists_nothing() {
    let parser = tsumugu::parser::nginx::NginxListingParser::default();
    match parser.get_list("http://up.test/d/", "<html><body></body></html>").unwrap() {
        ListResult::List(items) => assert_eq!(items.len(), 0),
        _ => panic!("expected a listing"),
    }
}

#[test]
fn walk_without_a_dists_ancestor_fails() {
    let r = tsumugu::extensions::apt::get_debian_root(
        "/srv/pool/main/Packages",
        &vec!["pool".to_string(), "main".to_string()],
        "http://up.test/pool/main/Packages",
    );
    assert_eq!(r.unwrap_err(), ExtensionError::Root);
}
