//! What this library takes on trust: the calls into the `url` and `csv`
//! crates and into the parts of `std` that have no specification, each with
//! the contract that the verified code relies on.

use csv::ReaderBuilder;
use url::Url;
use vstd::prelude::*;
use vstd::utf8::{decode_utf8, valid_utf8};

verus! {

/// What `url::Url::parse` makes of a text: `None` where it is no absolute
/// URL, else the serialization of the URL and its path.
pub uninterp spec fn parsed_url(text: Seq<char>) -> Option<(Seq<char>, Seq<char>)>;

/// What a `csv::Reader` with a header row gives as the header of a file:
/// its fields, or `None` where the row cannot be read as text.
pub uninterp spec fn csv_header(content: Seq<u8>) -> Option<Seq<Seq<char>>>;

/// What a `csv::Reader` with a header row gives as the records below the
/// header, in order: the fields of each, or `None` for a record that the
/// reader reports as an error.
pub uninterp spec fn csv_rows(content: Seq<u8>) -> Seq<Option<Seq<Seq<char>>>>;

/// Calls `url::Url::parse` and hands back the URL's serialization
/// (`Url::as_str`) and path (`Url::path`). Nothing is claimed of them but
/// that they are a function of the text.
#[verifier::external_body]
pub(crate) fn parse_url(text: &str) -> (r: Option<(String, String)>)
    ensures
        r.deep_view() == parsed_url(text@),
{
    match Url::parse(text) {
        Ok(url) => Some((url.as_str().to_string(), url.path().to_string())),
        Err(_) => None,
    }
}

/// Reads the header of `content` with `csv::Reader::headers`, the reader
/// built by `csv::ReaderBuilder` with `has_headers(true)`. Nothing is
/// claimed of the fields but that they are a function of the content.
#[verifier::external_body]
pub(crate) fn read_csv_header(content: &[u8]) -> (r: Option<Vec<String>>)
    ensures
        r.deep_view() == csv_header(content@),
{
    let mut reader = ReaderBuilder::new().has_headers(true).from_reader(content);
    match reader.headers() {
        Ok(header) => Some(header.iter().map(|field| field.to_string()).collect()),
        Err(_) => None,
    }
}

/// Reads the records of `content` with `csv::Reader::into_records`, the
/// reader built by `csv::ReaderBuilder` with `has_headers(true)`. Nothing is
/// claimed of the records but that they are a function of the content.
#[verifier::external_body]
pub(crate) fn read_csv_rows(content: &[u8]) -> (r: Vec<Option<Vec<String>>>)
    ensures
        r.deep_view() == csv_rows(content@),
{
    let reader = ReaderBuilder::new().has_headers(true).from_reader(content);
    reader
        .into_records()
        .map(|record| record.ok().map(|fields| fields.iter().map(|f| f.to_string()).collect()))
        .collect()
}

/// Decodes bytes with `std::str::from_utf8`: the text where the bytes are
/// valid UTF-8, `None` where they are not.
#[verifier::external_body]
pub(crate) fn utf8_text(bytes: &[u8]) -> (r: Option<String>)
    ensures
        r is Some <==> valid_utf8(bytes@),
        r matches Some(text) ==> text@ == decode_utf8(bytes@),
{
    std::str::from_utf8(bytes).ok().map(|text| text.to_string())
}

/// `String::push` appends one character.
pub assume_specification[ String::push ](s: &mut String, ch: char)
    ensures
        final(s)@ == old(s)@.push(ch),
;

} // verus!
