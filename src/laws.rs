//! What a sanitizing pass keeps and what it does twice.
use vstd::prelude::*;
use crate::json::{Json, first_key_at, has_key};
use crate::har::{Har, Entry, Request, Header, slot_filled, har_wf, entry_wf, request_wf, har_json,
    entry_json, request_json, header_json};
use crate::sanitize::{kept, surviving, stripped, entry_stripped};
use crate::pipeline::sanitized;

verus! {

/// The position of the first member named `key`.
pub open spec fn key_pos(ms: Seq<(String, Json)>, key: Seq<char>) -> int {
    choose|i: int| first_key_at(ms, key, i)
}

/// `b` holds the members of `a`, in order and with the same names, and the
/// same values but for the first member named `key`.
pub open spec fn same_but(a: Seq<(String, Json)>, b: Seq<(String, Json)>, key: Seq<char>) -> bool {
    &&& has_key(a, key)
    &&& slot_filled(b, a, key_pos(a, key))
}

/// Two requests agree on every member but `headers`, an array in both.
pub open spec fn request_kept(a: Json, b: Json) -> bool {
    match a {
        Json::Object(am) => match b {
            Json::Object(bm) => {
                &&& same_but(am@, bm@, "headers"@)
                &&& bm@[key_pos(am@, "headers"@)].1 is Array
            },
            _ => false,
        },
        _ => false,
    }
}

/// Two entries agree on every member, and their requests agree outside the
/// headers.
pub open spec fn entry_kept(a: Json, b: Json) -> bool {
    match a {
        Json::Object(am) => match b {
            Json::Object(bm) => {
                &&& same_but(am@, bm@, "request"@)
                &&& request_kept(am@[key_pos(am@, "request"@)].1, bm@[key_pos(am@, "request"@)].1)
            },
            _ => false,
        },
        _ => false,
    }
}

/// Two logs agree on every member, and their entries, one for one, agree
/// outside the request headers.
pub open spec fn log_kept(a: Json, b: Json) -> bool {
    match a {
        Json::Object(am) => match b {
            Json::Object(bm) => {
                &&& same_but(am@, bm@, "entries"@)
                &&& match am@[key_pos(am@, "entries"@)].1 {
                    Json::Array(ae) => match bm@[key_pos(am@, "entries"@)].1 {
                        Json::Array(be) => {
                            &&& ae@.len() == be@.len()
                            &&& forall|i: int| 0 <= i < ae@.len() ==> entry_kept(#[trigger] ae@[i], be@[i])
                        },
                        _ => false,
                    },
                    _ => false,
                }
            },
            _ => false,
        },
        _ => false,
    }
}

/// Two archives agree on every member and value, at every depth, outside
/// the arrays of request headers.
pub open spec fn kept_outside_headers(a: Json, b: Json) -> bool {
    match a {
        Json::Object(am) => match b {
            Json::Object(bm) => {
                &&& same_but(am@, bm@, "log"@)
                &&& log_kept(am@[key_pos(am@, "log"@)].1, bm@[key_pos(am@, "log"@)].1)
            },
            _ => false,
        },
        _ => false,
    }
}

proof fn lemma_slot(dm: Seq<(String, Json)>, om: Seq<(String, Json)>, fields: Seq<(String, Json)>, at: int, key: Seq<char>)
    requires
        slot_filled(dm, fields, at),
        slot_filled(om, fields, at),
        first_key_at(fields, key, at),
    ensures
        same_but(dm, om, key),
        key_pos(dm, key) == at,
{
    assert(first_key_at(dm, key, at)) by {
        assert forall|j: int| 0 <= j < at implies dm[j].0@ != key by {
            assert(dm[j] == fields[j]);
        }
    }
    let k = key_pos(dm, key);
    assert(first_key_at(dm, key, k));
    if k < at {
        assert(dm[k].0@ != key);
    } else if at < k {
        assert(dm[at].0@ != key);
    }
    assert forall|i: int| 0 <= i < om.len() && i != at implies #[trigger] om[i] == dm[i] by {
        assert(om[i] == fields[i]);
        assert(dm[i] == fields[i]);
    }
}

proof fn lemma_request_kept(ra: Request, rb: Request, ja: Json, jb: Json)
    requires
        request_wf(ra),
        request_json(ra, ja),
        request_json(rb, jb),
        rb.fields == ra.fields,
        rb.headers_at == ra.headers_at,
    ensures
        request_kept(ja, jb),
{
    let am = ja->Object_0@;
    let bm = jb->Object_0@;
    lemma_slot(am, bm, ra.fields@, ra.headers_at as int, "headers"@);
}

proof fn lemma_entry_kept(ea: Entry, eb: Entry, ja: Json, jb: Json)
    requires
        entry_wf(ea),
        entry_json(ea, ja),
        entry_json(eb, jb),
        entry_stripped(ea, eb),
    ensures
        entry_kept(ja, jb),
{
    let am = ja->Object_0@;
    let bm = jb->Object_0@;
    let at = ea.request_at as int;
    lemma_slot(am, bm, ea.fields@, at, "request"@);
    lemma_request_kept(ea.request, eb.request, am[at].1, bm[at].1);
}

/// A sanitized document agrees with the original on every member and value
/// outside the arrays of request headers: order of members and of entries
/// included.
pub proof fn lemma_structure_kept(doc: Json, out: Json)
    requires
        sanitized(doc, out),
    ensures
        kept_outside_headers(doc, out),
{
    let (a, b) = choose|a: Har, b: Har|
        {
            &&& har_wf(a)
            &&& har_json(a, doc)
            &&& stripped(a, b)
            &&& har_wf(b)
            &&& har_json(b, out)
        };
    let dm = doc->Object_0@;
    let om = out->Object_0@;
    let at = a.log_at as int;
    lemma_slot(dm, om, a.fields@, at, "log"@);
    let dl = dm[at].1->Object_0@;
    let ol = om[at].1->Object_0@;
    let eat = a.log.entries_at as int;
    lemma_slot(dl, ol, a.log.fields@, eat, "entries"@);
    let de = dl[eat].1->Array_0@;
    let oe = ol[eat].1->Array_0@;
    assert forall|i: int| 0 <= i < de.len() implies entry_kept(#[trigger] de[i], oe[i]) by {
        lemma_entry_kept(a.log.entries@[i], b.log.entries@[i], de[i], oe[i]);
    }
}

/// Two archives hold the same members, entries and headers.
pub open spec fn same_archive(x: Har, y: Har) -> bool {
    &&& x.fields == y.fields
    &&& x.log_at == y.log_at
    &&& x.log.fields == y.log.fields
    &&& x.log.entries_at == y.log.entries_at
    &&& x.log.entries@.len() == y.log.entries@.len()
    &&& forall|i: int| 0 <= i < x.log.entries@.len() ==> {
        let (ex, ey) = (#[trigger] x.log.entries@[i], y.log.entries@[i]);
        &&& ex.fields == ey.fields
        &&& ex.request_at == ey.request_at
        &&& ex.request.fields == ey.request.fields
        &&& ex.request.headers_at == ey.request.headers_at
        &&& ex.request.headers@ == ey.request.headers@
    }
}

proof fn lemma_all_kept_survive(hs: Seq<Header>)
    requires
        forall|k: int| 0 <= k < hs.len() ==> kept(#[trigger] hs[k]),
    ensures
        surviving(hs) == hs,
    decreases hs.len(),
{
    reveal(Seq::filter);
    if hs.len() > 0 {
        lemma_all_kept_survive(hs.drop_last());
        assert(hs.drop_last().push(hs.last()) =~= hs);
    }
}

/// Keeping the surviving headers of the surviving headers keeps them all.
pub proof fn lemma_surviving_idempotent(hs: Seq<Header>)
    ensures
        surviving(surviving(hs)) == surviving(hs),
{
    hs.filter_lemma(|h: Header| kept(h));
    lemma_all_kept_survive(surviving(hs));
}

/// Stripping an archive that was stripped already changes nothing.
pub proof fn lemma_strip_idempotent(a: Har, b: Har, c: Har)
    requires
        stripped(a, b),
        stripped(b, c),
    ensures
        same_archive(b, c),
{
    assert forall|i: int| 0 <= i < b.log.entries@.len() implies
        (#[trigger] c.log.entries@[i]).request.headers@ == b.log.entries@[i].request.headers@ by {
        assert(entry_stripped(a.log.entries@[i], b.log.entries@[i]));
        assert(entry_stripped(b.log.entries@[i], c.log.entries@[i]));
        lemma_surviving_idempotent(a.log.entries@[i].request.headers@);
    }
}

/// A header whose name is not `authorization` is still in its request
/// after stripping, and its entry stands where it stood.
pub proof fn lemma_kept_header_stays(a: Har, b: Har, i: int, k: int)
    requires
        stripped(a, b),
        0 <= i < a.log.entries@.len(),
        0 <= k < a.log.entries@[i].request.headers@.len(),
        kept(a.log.entries@[i].request.headers@[k]),
    ensures
        b.log.entries@[i].request.headers@.contains(a.log.entries@[i].request.headers@[k]),
{
    let hs = a.log.entries@[i].request.headers@;
    assert(entry_stripped(a.log.entries@[i], b.log.entries@[i]));
    hs.filter_lemma(|h: Header| kept(h));
}

/// The entries of an archive document.
pub open spec fn entries_of(j: Json) -> Seq<Json> {
    let m = j->Object_0@;
    let l = m[key_pos(m, "log"@)].1->Object_0@;
    l[key_pos(l, "entries"@)].1->Array_0@
}

/// The request headers of an entry.
pub open spec fn headers_of(e: Json) -> Seq<Json> {
    let m = e->Object_0@;
    let r = m[key_pos(m, "request"@)].1->Object_0@;
    r[key_pos(r, "headers"@)].1->Array_0@
}

/// Two archive documents hold the same members and values, request headers
/// included.
pub open spec fn same_document(a: Json, b: Json) -> bool {
    &&& kept_outside_headers(a, b)
    &&& forall|i: int| 0 <= i < entries_of(a).len()
        ==> headers_of(#[trigger] entries_of(a)[i]) == headers_of(entries_of(b)[i])
}

proof fn lemma_entry_idempotent(ea: Entry, eb: Entry, ea2: Entry, eb2: Entry, j1: Json, j2: Json)
    requires
        entry_stripped(ea, eb),
        entry_wf(ea),
        entry_wf(eb),
        entry_json(eb, j1),
        entry_wf(ea2),
        entry_json(ea2, j1),
        entry_stripped(ea2, eb2),
        entry_json(eb2, j2),
    ensures
        headers_of(j1) == headers_of(j2),
{
    let m1 = j1->Object_0@;
    let m2 = j2->Object_0@;
    let at = eb.request_at as int;
    lemma_slot(m1, m1, eb.fields@, at, "request"@);
    lemma_slot(m1, m1, ea2.fields@, ea2.request_at as int, "request"@);
    lemma_slot(m2, m2, ea2.fields@, at, "request"@);
    let r1 = m1[at].1->Object_0@;
    let r2 = m2[at].1->Object_0@;
    let hat = eb.request.headers_at as int;
    lemma_slot(r1, r1, eb.request.fields@, hat, "headers"@);
    lemma_slot(r1, r1, ea2.request.fields@, ea2.request.headers_at as int, "headers"@);
    lemma_slot(r2, r2, ea2.request.fields@, hat, "headers"@);
    let hs1 = r1[hat].1->Array_0@;
    let hs2 = r2[hat].1->Array_0@;
    let bh = eb.request.headers@;
    let ah = ea2.request.headers@;
    ea.request.headers@.filter_lemma(|h: Header| kept(h));
    assert forall|k: int| 0 <= k < ah.len() implies kept(#[trigger] ah[k]) by {
        assert(header_json(bh[k], hs1[k]));
        assert(header_json(ah[k], hs1[k]));
        assert(kept(bh[k]));
    }
    lemma_all_kept_survive(ah);
    assert(hs2 =~= hs1) by {
        assert forall|k: int| 0 <= k < hs1.len() implies hs2[k] == hs1[k] by {
            assert(header_json(eb2.request.headers@[k], hs2[k]));
            assert(header_json(ah[k], hs1[k]));
        }
    }
}

/// Sanitizing a sanitized document gives the same document.
pub proof fn lemma_sanitize_idempotent(doc: Json, once: Json, twice: Json)
    requires
        sanitized(doc, once),
        sanitized(once, twice),
    ensures
        same_document(once, twice),
{
    lemma_structure_kept(once, twice);
    let (a, b) = choose|a: Har, b: Har|
        {
            &&& har_wf(a)
            &&& har_json(a, doc)
            &&& stripped(a, b)
            &&& har_wf(b)
            &&& har_json(b, once)
        };
    let (a2, b2) = choose|a: Har, b: Har|
        {
            &&& har_wf(a)
            &&& har_json(a, once)
            &&& stripped(a, b)
            &&& har_wf(b)
            &&& har_json(b, twice)
        };
    let m1 = once->Object_0@;
    let m2 = twice->Object_0@;
    let at = b.log_at as int;
    lemma_slot(m1, m1, b.fields@, at, "log"@);
    lemma_slot(m1, m1, a2.fields@, a2.log_at as int, "log"@);
    lemma_slot(m2, m2, a2.fields@, at, "log"@);
    let l1 = m1[at].1->Object_0@;
    let l2 = m2[at].1->Object_0@;
    let eat = b.log.entries_at as int;
    lemma_slot(l1, l1, b.log.fields@, eat, "entries"@);
    lemma_slot(l1, l1, a2.log.fields@, a2.log.entries_at as int, "entries"@);
    lemma_slot(l2, l2, a2.log.fields@, eat, "entries"@);
    let e1 = l1[eat].1->Array_0@;
    let e2 = l2[eat].1->Array_0@;
    assert forall|i: int| 0 <= i < entries_of(once).len() implies headers_of(
        #[trigger] entries_of(once)[i],
    ) == headers_of(entries_of(twice)[i]) by {
        assert(entry_stripped(a.log.entries@[i], b.log.entries@[i]));
        assert(entry_stripped(a2.log.entries@[i], b2.log.entries@[i]));
        assert(entry_json(b.log.entries@[i], e1[i]));
        assert(entry_json(a2.log.entries@[i], e1[i]));
        assert(entry_json(b2.log.entries@[i], e2[i]));
        lemma_entry_idempotent(
            a.log.entries@[i],
            b.log.entries@[i],
            a2.log.entries@[i],
            b2.log.entries@[i],
            e1[i],
            e2[i],
        );
    }
}

} // verus!
