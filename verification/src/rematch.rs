//! Trusted boundary around the `regex` crate.  A [`CompiledRegex`] pairs a
//! compiled expression with the pattern text it was built from; everything
//! the library claims about matching is said over that pattern text.

use vstd::prelude::*;

use crate::bytes::{text_bytes, texts_of};

verus! {

#[verifier::external_type_specification]
#[verifier::external_body]
pub struct ExRegex(regex::Regex);

/// Whether `Regex::new` accepts `pattern`.
pub uninterp spec fn regex_valid(pattern: Seq<u8>) -> bool;

/// Whether the regular expression `pattern` matches somewhere in `text`.
pub uninterp spec fn regex_matches(pattern: Seq<u8>, text: Seq<u8>) -> bool;

/// The capture groups of the leftmost match of `pattern` in `text`: one
/// entry per group, the whole match first, a group that took no part giving
/// empty text; `None` when `pattern` does not match `text`.
pub uninterp spec fn regex_captures_of(pattern: Seq<u8>, text: Seq<u8>) -> Option<Seq<Seq<u8>>>;

/// A regular expression together with the pattern it was compiled from.
/// Only [`CompiledRegex::compile`] builds one, so the two fields always
/// belong together.
#[derive(Debug)]
pub struct CompiledRegex {
    inner: regex::Regex,
    source: String,
}

impl View for CompiledRegex {
    type V = Seq<u8>;

    /// The bytes of the pattern this expression was compiled from.
    closed spec fn view(&self) -> Seq<u8> {
        text_bytes(self.source@)
    }
}

impl CompiledRegex {
    /// Relies on `regex::Regex::new`: compilation succeeds for exactly the
    /// patterns the crate accepts, and the compiled value matches per that
    /// pattern.
    #[verifier::external_body]
    pub fn compile(pattern: &str) -> (r: Option<CompiledRegex>)
        ensures
            r matches Some(c) ==> c@ == text_bytes(pattern@),
            (r is Some) == regex_valid(text_bytes(pattern@)),
    {
        match regex::Regex::new(pattern) {
            Ok(inner) => Some(CompiledRegex { inner, source: pattern.to_owned() }),
            Err(_) => None,
        }
    }

    /// Relies on `regex::Regex::is_match`: whether the pattern matches
    /// anywhere in `text`, a function of the pattern and the text alone.
    #[verifier::external_body]
    pub fn is_match(&self, text: &str) -> (r: bool)
        ensures
            r == regex_matches(self@, text_bytes(text@)),
    {
        self.inner.is_match(text)
    }

    /// Relies on `regex::Regex::captures`: the groups of the leftmost match,
    /// one string per group, empty for a group that took no part.
    #[verifier::external_body]
    pub fn captures(&self, text: &str) -> (r: Option<Vec<String>>)
        ensures
            match r {
                Some(groups) => regex_captures_of(self@, text_bytes(text@)) == Some(
                    texts_of(groups@),
                ),
                None => regex_captures_of(self@, text_bytes(text@)) is None,
            },
    {
        self.inner.captures(text).map(
            |c|
                (0..c.len()).map(
                    |i| c.get(i).map(|m| m.as_str().to_string()).unwrap_or_default(),
                ).collect(),
        )
    }

    /// The pattern this expression was compiled from.
    pub fn as_source(&self) -> (r: &String)
        ensures
            text_bytes(r@) == self@,
    {
        &self.source
    }
}

} // verus!
