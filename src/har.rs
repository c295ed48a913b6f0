//! The HAR document model: the few members that the sanitizer reads are
//! typed, and every other member is kept as it was read, in its place.
use vstd::prelude::*;
use crate::json::{Json, Members, first_key_at, member, find_key, replace_member};

verus! {

/// Why a JSON document is not a HAR archive that this library can read.
#[derive(Debug, Clone, Copy, PartialEq, Eq, Structural)]
pub enum HarError {
    /// The document is not an object with a `log` member.
    MissingLog,
    /// `log` is not an object.
    LogNotObject,
    /// `log.entries` is missing or not an array.
    EntriesNotArray,
    /// An entry is not an object.
    EntryNotObject,
    /// An entry's `request` is missing or not an object.
    RequestNotObject,
    /// A request's `headers` is missing or not an array.
    HeadersNotArray,
    /// A header is not an object.
    HeaderNotObject,
    /// A header's `name` is missing or not a string.
    HeaderNameNotString,
    /// A header's `value` is missing or not a string.
    HeaderValueNotString,
}

/// A request header. `fields` holds all of its members as read.
pub struct Header {
    pub name: String,
    pub value: String,
    pub fields: Members,
}

/// A request. `fields` holds its members as read; the member at
/// `headers_at` is `headers`, whose value is held in `headers`.
pub struct Request {
    pub fields: Members,
    pub headers_at: usize,
    pub headers: Vec<Header>,
}

/// A recorded transaction; its `request` member stands at `request_at`.
pub struct Entry {
    pub fields: Members,
    pub request_at: usize,
    pub request: Request,
}

/// The log; its `entries` member stands at `entries_at`.
pub struct Log {
    pub fields: Members,
    pub entries_at: usize,
    pub entries: Vec<Entry>,
}

/// A HAR archive; its `log` member stands at `log_at`.
pub struct Har {
    pub fields: Members,
    pub log_at: usize,
    pub log: Log,
}

pub open spec fn str_value(j: Option<Json>) -> bool {
    match j {
        Some(Json::Str(_)) => true,
        _ => false,
    }
}

pub open spec fn header_error(j: Json) -> Option<HarError> {
    match j {
        Json::Object(ms) => if !str_value(member(ms@, "name"@)) {
            Some(HarError::HeaderNameNotString)
        } else if !str_value(member(ms@, "value"@)) {
            Some(HarError::HeaderValueNotString)
        } else {
            None
        },
        _ => Some(HarError::HeaderNotObject),
    }
}

/// The error of the first header that has one.
pub open spec fn headers_error(hs: Seq<Json>) -> Option<HarError>
    decreases hs.len(),
{
    if hs.len() == 0 {
        None
    } else {
        match headers_error(hs.drop_last()) {
            Some(e) => Some(e),
            None => header_error(hs.last()),
        }
    }
}

pub open spec fn request_error(j: Json) -> Option<HarError> {
    match j {
        Json::Object(ms) => match member(ms@, "headers"@) {
            Some(Json::Array(hs)) => headers_error(hs@),
            _ => Some(HarError::HeadersNotArray),
        },
        _ => Some(HarError::RequestNotObject),
    }
}

pub open spec fn entry_error(j: Json) -> Option<HarError> {
    match j {
        Json::Object(ms) => match member(ms@, "request"@) {
            Some(r) => request_error(r),
            None => Some(HarError::RequestNotObject),
        },
        _ => Some(HarError::EntryNotObject),
    }
}

/// The error of the first entry that has one.
pub open spec fn entries_error(es: Seq<Json>) -> Option<HarError>
    decreases es.len(),
{
    if es.len() == 0 {
        None
    } else {
        match entries_error(es.drop_last()) {
            Some(e) => Some(e),
            None => entry_error(es.last()),
        }
    }
}

pub open spec fn log_error(j: Json) -> Option<HarError> {
    match j {
        Json::Object(ms) => match member(ms@, "entries"@) {
            Some(Json::Array(es)) => entries_error(es@),
            _ => Some(HarError::EntriesNotArray),
        },
        _ => Some(HarError::LogNotObject),
    }
}

/// What, if anything, keeps a JSON document from being read as a HAR
/// archive: the document is checked from the root down, and entries and
/// headers in order.
pub open spec fn har_error(j: Json) -> Option<HarError> {
    match j {
        Json::Object(ms) => match member(ms@, "log"@) {
            Some(l) => log_error(l),
            None => Some(HarError::MissingLog),
        },
        _ => Some(HarError::MissingLog),
    }
}

/// `ms` holds `fields` member for member, but for the value at `at`.
pub open spec fn slot_filled(ms: Seq<(String, Json)>, fields: Seq<(String, Json)>, at: int) -> bool {
    &&& ms.len() == fields.len()
    &&& 0 <= at < ms.len()
    &&& ms[at].0 == fields[at].0
    &&& forall|i: int| 0 <= i < ms.len() && i != at ==> #[trigger] ms[i] == fields[i]
}

pub open spec fn header_wf(h: Header) -> bool {
    &&& member(h.fields@, "name"@) == Some(Json::Str(h.name))
    &&& member(h.fields@, "value"@) == Some(Json::Str(h.value))
}

pub open spec fn request_wf(r: Request) -> bool {
    &&& first_key_at(r.fields@, "headers"@, r.headers_at as int)
    &&& forall|k: int| 0 <= k < r.headers@.len() ==> header_wf(#[trigger] r.headers@[k])
}

pub open spec fn entry_wf(e: Entry) -> bool {
    &&& first_key_at(e.fields@, "request"@, e.request_at as int)
    &&& request_wf(e.request)
}

pub open spec fn log_wf(l: Log) -> bool {
    &&& first_key_at(l.fields@, "entries"@, l.entries_at as int)
    &&& forall|i: int| 0 <= i < l.entries@.len() ==> entry_wf(#[trigger] l.entries@[i])
}

pub open spec fn har_wf(h: Har) -> bool {
    &&& first_key_at(h.fields@, "log"@, h.log_at as int)
    &&& log_wf(h.log)
}

/// `j` is the JSON form of the header.
pub open spec fn header_json(h: Header, j: Json) -> bool {
    j == Json::Object(h.fields)
}

/// `j` is the JSON form of the request.
pub open spec fn request_json(r: Request, j: Json) -> bool {
    match j {
        Json::Object(ms) => {
            &&& slot_filled(ms@, r.fields@, r.headers_at as int)
            &&& match ms@[r.headers_at as int].1 {
                Json::Array(hs) => {
                    &&& hs@.len() == r.headers@.len()
                    &&& forall|k: int| 0 <= k < hs@.len() ==> header_json(#[trigger] r.headers@[k], hs@[k])
                },
                _ => false,
            }
        },
        _ => false,
    }
}

/// `j` is the JSON form of the entry.
pub open spec fn entry_json(e: Entry, j: Json) -> bool {
    match j {
        Json::Object(ms) => {
            &&& slot_filled(ms@, e.fields@, e.request_at as int)
            &&& request_json(e.request, ms@[e.request_at as int].1)
        },
        _ => false,
    }
}

/// `j` is the JSON form of the log.
pub open spec fn log_json(l: Log, j: Json) -> bool {
    match j {
        Json::Object(ms) => {
            &&& slot_filled(ms@, l.fields@, l.entries_at as int)
            &&& match ms@[l.entries_at as int].1 {
                Json::Array(es) => {
                    &&& es@.len() == l.entries@.len()
                    &&& forall|i: int| 0 <= i < es@.len() ==> entry_json(#[trigger] l.entries@[i], es@[i])
                },
                _ => false,
            }
        },
        _ => false,
    }
}

/// `j` is the JSON form of the archive.
pub open spec fn har_json(h: Har, j: Json) -> bool {
    match j {
        Json::Object(ms) => {
            &&& slot_filled(ms@, h.fields@, h.log_at as int)
            &&& log_json(h.log, ms@[h.log_at as int].1)
        },
        _ => false,
    }
}

proof fn lemma_headers_error_prefix(s: Seq<Json>, k: int)
    requires
        0 <= k <= s.len(),
        headers_error(s.subrange(0, k)) is Some,
    ensures
        headers_error(s) == headers_error(s.subrange(0, k)),
    decreases s.len(),
{
    if k == s.len() {
        assert(s.subrange(0, k) =~= s);
    } else {
        assert(s.drop_last().subrange(0, k) =~= s.subrange(0, k));
        lemma_headers_error_prefix(s.drop_last(), k);
    }
}

proof fn lemma_entries_error_prefix(s: Seq<Json>, k: int)
    requires
        0 <= k <= s.len(),
        entries_error(s.subrange(0, k)) is Some,
    ensures
        entries_error(s) == entries_error(s.subrange(0, k)),
    decreases s.len(),
{
    if k == s.len() {
        assert(s.subrange(0, k) =~= s);
    } else {
        assert(s.drop_last().subrange(0, k) =~= s.subrange(0, k));
        lemma_entries_error_prefix(s.drop_last(), k);
    }
}

/// Reads the string value of the first member named `key`, if it is one.
fn string_member(ms: &Members, key: &str) -> (r: Option<String>)
    ensures
        str_value(member(ms@, key@)) <==> r is Some,
        r matches Some(s) ==> member(ms@, key@) == Some(Json::Str(s)),
{
    let k = key.to_owned();
    match find_key(ms, &k) {
        Some(i) => match &ms[i].1 {
            Json::Str(s) => Some(s.clone()),
            _ => None,
        },
        None => None,
    }
}

/// Reads one header.
pub fn parse_header(j: Json) -> (r: Result<Header, HarError>)
    ensures
        match r {
            Ok(h) => header_error(j) is None && header_json(h, j) && header_wf(h),
            Err(e) => header_error(j) == Some(e),
        },
{
    match j {
        Json::Object(ms) => {
            let name = match string_member(&ms, "name") {
                Some(s) => s,
                None => {
                    return Err(HarError::HeaderNameNotString);
                },
            };
            let value = match string_member(&ms, "value") {
                Some(s) => s,
                None => {
                    return Err(HarError::HeaderValueNotString);
                },
            };
            Ok(Header { name, value, fields: ms })
        },
        _ => Err(HarError::HeaderNotObject),
    }
}

/// Reads the headers of a request, in order.
pub fn parse_headers(hs: Vec<Json>) -> (r: Result<Vec<Header>, HarError>)
    ensures
        r is Ok <==> headers_error(hs@) is None,
        r matches Err(e) ==> headers_error(hs@) == Some(e),
        r matches Ok(out) ==> {
            &&& out@.len() == hs@.len()
            &&& forall|k: int| 0 <= k < out@.len()
                ==> header_json(#[trigger] out@[k], hs@[k]) && header_wf(out@[k])
        },
{
    let ghost s = hs@;
    let mut rest = reversed(hs);
    let mut out: Vec<Header> = Vec::new();
    while rest.len() > 0
        invariant
            s == hs@,
            rest@.len() + out@.len() == s.len(),
            forall|m: int| 0 <= m < rest@.len() ==> #[trigger] rest@[m] == s[s.len() - 1 - m],
            headers_error(s.subrange(0, out@.len() as int)) is None,
            forall|k: int| 0 <= k < out@.len()
                ==> header_json(#[trigger] out@[k], s[k]) && header_wf(out@[k]),
        decreases rest@.len(),
    {
        let ghost k = out@.len() as int;
        let j = rest.pop().unwrap();
        proof {
            assert(j == s[k]);
            assert(s.subrange(0, k + 1).drop_last() =~= s.subrange(0, k));
            assert(s.subrange(0, k + 1).last() == s[k]);
        }
        match parse_header(j) {
            Ok(h) => {
                out.push(h);
            },
            Err(e) => {
                proof {
                    lemma_headers_error_prefix(s, k + 1);
                }
                return Err(e);
            },
        }
    }
    proof {
        assert(s.subrange(0, s.len() as int) =~= s);
    }
    Ok(out)
}

/// Reads one request.
pub fn parse_request(j: Json) -> (r: Result<Request, HarError>)
    ensures
        match r {
            Ok(req) => request_error(j) is None && request_json(req, j) && request_wf(req),
            Err(e) => request_error(j) == Some(e),
        },
{
    match j {
        Json::Object(ms) => {
            let mut ms = ms;
            let key = "headers".to_owned();
            match find_key(&ms, &key) {
                Some(at) => {
                    let inner = replace_member(&mut ms, at, Json::Null);
                    match inner {
                        Json::Array(hs) => match parse_headers(hs) {
                            Ok(headers) => Ok(Request { fields: ms, headers_at: at, headers }),
                            Err(e) => Err(e),
                        },
                        _ => Err(HarError::HeadersNotArray),
                    }
                },
                None => Err(HarError::HeadersNotArray),
            }
        },
        _ => Err(HarError::RequestNotObject),
    }
}

/// Reads one entry.
pub fn parse_entry(j: Json) -> (r: Result<Entry, HarError>)
    ensures
        r is Ok <==> entry_error(j) is None,
        r matches Err(e) ==> entry_error(j) == Some(e),
        r matches Ok(e) ==> entry_json(e, j) && entry_wf(e),
{
    match j {
        Json::Object(ms) => {
            let mut ms = ms;
            let key = "request".to_owned();
            match find_key(&ms, &key) {
                Some(at) => {
                    let inner = replace_member(&mut ms, at, Json::Null);
                    match parse_request(inner) {
                        Ok(request) => Ok(Entry { fields: ms, request_at: at, request }),
                        Err(e) => Err(e),
                    }
                },
                None => Err(HarError::RequestNotObject),
            }
        },
        _ => Err(HarError::EntryNotObject),
    }
}

/// Reads the entries of a log, in order.
pub fn parse_entries(es: Vec<Json>) -> (r: Result<Vec<Entry>, HarError>)
    ensures
        r is Ok <==> entries_error(es@) is None,
        r matches Err(e) ==> entries_error(es@) == Some(e),
        r matches Ok(out) ==> {
            &&& out@.len() == es@.len()
            &&& forall|i: int| 0 <= i < out@.len()
                ==> entry_json(#[trigger] out@[i], es@[i]) && entry_wf(out@[i])
        },
{
    let ghost s = es@;
    let mut rest = reversed(es);
    let mut out: Vec<Entry> = Vec::new();
    while rest.len() > 0
        invariant
            s == es@,
            rest@.len() + out@.len() == s.len(),
            forall|m: int| 0 <= m < rest@.len() ==> #[trigger] rest@[m] == s[s.len() - 1 - m],
            entries_error(s.subrange(0, out@.len() as int)) is None,
            forall|i: int| 0 <= i < out@.len()
                ==> entry_json(#[trigger] out@[i], s[i]) && entry_wf(out@[i]),
        decreases rest@.len(),
    {
        let ghost k = out@.len() as int;
        let j = rest.pop().unwrap();
        proof {
            assert(j == s[k]);
            assert(s.subrange(0, k + 1).drop_last() =~= s.subrange(0, k));
            assert(s.subrange(0, k + 1).last() == s[k]);
        }
        match parse_entry(j) {
            Ok(e) => {
                out.push(e);
            },
            Err(e) => {
                proof {
                    lemma_entries_error_prefix(s, k + 1);
                }
                return Err(e);
            },
        }
    }
    proof {
        assert(s.subrange(0, s.len() as int) =~= s);
    }
    Ok(out)
}

/// Reads the log.
pub fn parse_log(j: Json) -> (r: Result<Log, HarError>)
    ensures
        r is Ok <==> log_error(j) is None,
        r matches Err(e) ==> log_error(j) == Some(e),
        r matches Ok(l) ==> log_json(l, j) && log_wf(l),
{
    match j {
        Json::Object(ms) => {
            let mut ms = ms;
            let key = "entries".to_owned();
            match find_key(&ms, &key) {
                Some(at) => {
                    let inner = replace_member(&mut ms, at, Json::Null);
                    match inner {
                        Json::Array(es) => match parse_entries(es) {
                            Ok(entries) => Ok(Log { fields: ms, entries_at: at, entries }),
                            Err(e) => Err(e),
                        },
                        _ => Err(HarError::EntriesNotArray),
                    }
                },
                None => Err(HarError::EntriesNotArray),
            }
        },
        _ => Err(HarError::LogNotObject),
    }
}

/// Reads a HAR archive from a JSON document. It succeeds exactly when
/// `har_error` finds nothing, and the archive's JSON form is the document.
pub fn parse_har(j: Json) -> (r: Result<Har, HarError>)
    ensures
        r is Ok <==> har_error(j) is None,
        r matches Err(e) ==> har_error(j) == Some(e),
        r matches Ok(h) ==> har_json(h, j) && har_wf(h),
{
    match j {
        Json::Object(ms) => {
            let mut ms = ms;
            let key = "log".to_owned();
            match find_key(&ms, &key) {
                Some(at) => {
                    let inner = replace_member(&mut ms, at, Json::Null);
                    match parse_log(inner) {
                        Ok(log) => Ok(Har { fields: ms, log_at: at, log }),
                        Err(e) => Err(e),
                    }
                },
                None => Err(HarError::MissingLog),
            }
        },
        _ => Err(HarError::MissingLog),
    }
}

/// The JSON form of a header.
pub fn emit_header(h: Header) -> (j: Json)
    ensures
        header_json(h, j),
{
    Json::Object(h.fields)
}

/// The JSON form of a request.
pub fn emit_request(r: Request) -> (j: Json)
    requires
        request_wf(r),
    ensures
        request_json(r, j),
{
    let ghost hs = r.headers@;
    let mut fields = r.fields;
    let mut rest = reversed(r.headers);
    let mut out: Vec<Json> = Vec::new();
    while rest.len() > 0
        invariant
            rest@.len() + out@.len() == hs.len(),
            forall|m: int| 0 <= m < rest@.len() ==> #[trigger] rest@[m] == hs[hs.len() - 1 - m],
            forall|k: int| 0 <= k < out@.len() ==> header_json(hs[k], #[trigger] out@[k]),
        decreases rest@.len(),
    {
        let h = rest.pop().unwrap();
        let j = emit_header(h);
        out.push(j);
    }
    let _ = replace_member(&mut fields, r.headers_at, Json::Array(out));
    Json::Object(fields)
}

/// The JSON form of an entry.
pub fn emit_entry(e: Entry) -> (j: Json)
    requires
        entry_wf(e),
    ensures
        entry_json(e, j),
{
    let mut fields = e.fields;
    let request = emit_request(e.request);
    let _ = replace_member(&mut fields, e.request_at, request);
    Json::Object(fields)
}

/// The JSON form of a log.
pub fn emit_log(l: Log) -> (j: Json)
    requires
        log_wf(l),
    ensures
        log_json(l, j),
{
    let ghost es = l.entries@;
    let mut fields = l.fields;
    let mut rest = reversed(l.entries);
    let mut out: Vec<Json> = Vec::new();
    while rest.len() > 0
        invariant
            rest@.len() + out@.len() == es.len(),
            forall|m: int| 0 <= m < rest@.len() ==> #[trigger] rest@[m] == es[es.len() - 1 - m],
            forall|i: int| 0 <= i < es.len() ==> entry_wf(#[trigger] es[i]),
            forall|i: int| 0 <= i < out@.len() ==> entry_json(es[i], #[trigger] out@[i]),
        decreases rest@.len(),
    {
        let ghost i = out@.len() as int;
        let e = rest.pop().unwrap();
        proof {
            assert(e == es[i]);
        }
        let j = emit_entry(e);
        out.push(j);
    }
    let _ = replace_member(&mut fields, l.entries_at, Json::Array(out));
    Json::Object(fields)
}

/// The JSON form of an archive: the document it was read from, with any
/// change made to its typed parts.
pub fn emit_har(h: Har) -> (j: Json)
    requires
        har_wf(h),
    ensures
        har_json(h, j),
{
    let mut fields = h.fields;
    let log = emit_log(h.log);
    let _ = replace_member(&mut fields, h.log_at, log);
    Json::Object(fields)
}

/// The same items, last first.
pub fn reversed<T>(v: Vec<T>) -> (r: Vec<T>)
    ensures
        r@.len() == v@.len(),
        forall|i: int| 0 <= i < v@.len() ==> #[trigger] r@[i] == v@[v@.len() - 1 - i],
{
    let ghost v0 = v@;
    let mut v = v;
    let mut r: Vec<T> = Vec::new();
    while v.len() > 0
        invariant
            v@ == v0.subrange(0, v@.len() as int),
            r@.len() + v@.len() == v0.len(),
            forall|i: int| 0 <= i < r@.len() ==> #[trigger] r@[i] == v0[v0.len() - 1 - i],
        decreases v@.len(),
    {
        let x = v.pop().unwrap();
        r.push(x);
    }
    r
}

} // verus!
