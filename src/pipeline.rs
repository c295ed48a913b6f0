//! One sanitizing pass: text in, pretty-printed text out, with the parse
//! failure, if any, that the host reports.
use vstd::prelude::*;
use crate::json::{Json, Members, parse_json, to_pretty_text, parsed_of, pretty_of};
use crate::har::{Har, Log, HarError, har_error, har_wf, har_json, parse_har, emit_har};
use crate::sanitize::{stripped, strip_auth_headers};

verus! {

/// Why the input could not be read as a HAR archive.
#[derive(Debug)]
pub enum ParseFailure {
    /// The text is not a JSON document.
    Syntax(serde_json::Error),
    /// The document does not have the shape of a HAR archive.
    Shape(HarError),
}

/// The result of one pass.
pub struct Processed {
    /// The sanitized archive.
    pub document: Json,
    /// The sanitized archive as pretty-printed JSON, or the serializer's error.
    pub output: Result<String, serde_json::Error>,
    /// Set when the input could not be read; the output is then the empty
    /// archive.
    pub failure: Option<ParseFailure>,
}

/// The empty archive: `{"log": {"version": "", "creator": {}, "entries": []}}`,
/// members in this order.
pub open spec fn is_empty_archive(j: Json) -> bool {
    match j {
        Json::Object(ms) => {
            &&& ms@.len() == 1
            &&& ms@[0].0@ == "log"@
            &&& match ms@[0].1 {
                Json::Object(l) => {
                    &&& l@.len() == 3
                    &&& l@[0].0@ == "version"@
                    &&& match l@[0].1 {
                        Json::Str(v) => v@.len() == 0,
                        _ => false,
                    }
                    &&& l@[1].0@ == "creator"@
                    &&& match l@[1].1 {
                        Json::Object(c) => c@.len() == 0,
                        _ => false,
                    }
                    &&& l@[2].0@ == "entries"@
                    &&& match l@[2].1 {
                        Json::Array(e) => e@.len() == 0,
                        _ => false,
                    }
                },
                _ => false,
            }
        },
        _ => false,
    }
}

/// The archive model of the empty archive.
pub open spec fn is_empty_har(h: Har) -> bool {
    &&& h.fields@.len() == 1
    &&& h.fields@[0].0@ == "log"@
    &&& h.log_at == 0
    &&& h.log.entries_at == 2
    &&& h.log.entries@.len() == 0
    &&& h.log.fields@.len() == 3
    &&& h.log.fields@[0].0@ == "version"@
    &&& match h.log.fields@[0].1 {
        Json::Str(v) => v@.len() == 0,
        _ => false,
    }
    &&& h.log.fields@[1].0@ == "creator"@
    &&& match h.log.fields@[1].1 {
        Json::Object(c) => c@.len() == 0,
        _ => false,
    }
    &&& h.log.fields@[2].0@ == "entries"@
}

impl Default for Har {
    /// The empty archive, which stands in for an input that cannot be read.
    fn default() -> (r: Har)
        ensures
            har_wf(r),
            is_empty_har(r),
    {
        let mut log_fields: Members = Vec::new();
        log_fields.push(("version".to_owned(), Json::Str(String::new())));
        log_fields.push(("creator".to_owned(), Json::Object(Vec::new())));
        log_fields.push(("entries".to_owned(), Json::Null));
        let log = Log { fields: log_fields, entries_at: 2, entries: Vec::new() };
        let mut fields: Members = Vec::new();
        fields.push(("log".to_owned(), Json::Null));
        proof {
            reveal_strlit("version");
            reveal_strlit("creator");
            reveal_strlit("entries");
            assert("version"@[0] != "entries"@[0]);
            assert("creator"@[0] != "entries"@[0]);
        }
        Har { fields, log_at: 0, log }
    }
}

/// The JSON form of the empty archive.
pub fn empty_archive() -> (j: Json)
    ensures
        is_empty_archive(j),
{
    let mut h = Har::default();
    strip_auth_headers(&mut h);
    let j = emit_har(h);
    j
}

/// `out` is `doc` read as an archive, sanitized, and written back.
pub open spec fn sanitized(doc: Json, out: Json) -> bool {
    exists|a: Har, b: Har|
        {
            &&& har_wf(a)
            &&& har_json(a, doc)
            &&& stripped(a, b)
            &&& har_wf(b)
            &&& har_json(b, out)
        }
}

/// Sanitizes a JSON document. When it reads as a HAR archive, the result is
/// the archive without its request `authorization` headers; otherwise it is
/// the empty archive, with the reason.
pub fn sanitize_document(doc: Json) -> (r: (Json, Option<HarError>))
    ensures
        r.1 == har_error(doc),
        r.1 is None ==> sanitized(doc, r.0),
        r.1 is Some ==> is_empty_archive(r.0),
{
    match parse_har(doc) {
        Ok(h) => {
            let ghost a = h;
            let mut h = h;
            strip_auth_headers(&mut h);
            let ghost b = h;
            let out = emit_har(h);
            proof {
                assert(har_wf(a) && har_json(a, doc) && stripped(a, b) && har_wf(b) && har_json(
                    b,
                    out,
                ));
            }
            (out, None)
        },
        Err(e) => (empty_archive(), Some(e)),
    }
}

/// One pass over the text of a HAR file: read it, sanitize it, and write it
/// back as pretty-printed JSON. Text that cannot be read gives the empty
/// archive and a failure to report.
pub fn process_file(contents: &str) -> (r: Processed)
    ensures
        r.failure matches Some(ParseFailure::Syntax(_)) <==> parsed_of(contents@) is None,
        parsed_of(contents@) is Some ==> (r.failure is None <==> har_error(
            parsed_of(contents@)->Some_0,
        ) is None),
        r.failure matches Some(ParseFailure::Shape(e)) ==> parsed_of(contents@) is Some && har_error(
            parsed_of(contents@)->Some_0,
        ) == Some(e),
        r.failure is None ==> parsed_of(contents@) is Some && sanitized(
            parsed_of(contents@)->Some_0,
            r.document,
        ),
        r.failure is Some ==> is_empty_archive(r.document),
        r.output matches Ok(t) ==> t@ == pretty_of(r.document),
{
    let (doc, failure) = match parse_json(contents) {
        Ok(j) => {
            let ghost doc = j;
            let (out, e) = sanitize_document(j);
            proof {
                if e is None {
                    assert(sanitized(doc, out));
                }
            }
            match e {
                Some(e) => (out, Some(ParseFailure::Shape(e))),
                None => (out, None),
            }
        },
        Err(err) => (empty_archive(), Some(ParseFailure::Syntax(err))),
    };
    let output = to_pretty_text(&doc);
    Processed { document: doc, output, failure }
}

} // verus!
