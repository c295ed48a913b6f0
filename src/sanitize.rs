//! Removal of request `authorization` headers from a HAR archive.
use vstd::prelude::*;
use crate::har::{Har, Entry, Request, Header, har_wf, entry_wf, header_wf, reversed};

verus! {

/// Whether a header survives: its name is not exactly `authorization`.
/// The comparison is case-sensitive and takes no whitespace away.
pub open spec fn kept(h: Header) -> bool {
    h.name@ != "authorization"@
}

/// The headers that survive, in their order.
pub open spec fn surviving(hs: Seq<Header>) -> Seq<Header> {
    hs.filter(|h: Header| kept(h))
}

/// `n` is `o` with its request headers reduced to the surviving ones.
pub open spec fn entry_stripped(o: Entry, n: Entry) -> bool {
    &&& n.fields == o.fields
    &&& n.request_at == o.request_at
    &&& n.request.fields == o.request.fields
    &&& n.request.headers_at == o.request.headers_at
    &&& n.request.headers@ == surviving(o.request.headers@)
}

/// `n` is `o` with every request's headers reduced to the surviving ones;
/// everything else, entries and their order included, is the same.
pub open spec fn stripped(o: Har, n: Har) -> bool {
    &&& n.fields == o.fields
    &&& n.log_at == o.log_at
    &&& n.log.fields == o.log.fields
    &&& n.log.entries_at == o.log.entries_at
    &&& n.log.entries@.len() == o.log.entries@.len()
    &&& forall|i: int| 0 <= i < o.log.entries@.len()
        ==> entry_stripped(#[trigger] o.log.entries@[i], n.log.entries@[i])
}

/// Keeps the headers whose name is not `authorization`, in order.
pub fn keep_non_auth(hs: Vec<Header>) -> (r: Vec<Header>)
    ensures
        r@ == surviving(hs@),
        forall|k: int| 0 <= k < r@.len() ==> kept(#[trigger] r@[k]),
        (forall|k: int| 0 <= k < hs@.len() ==> header_wf(#[trigger] hs@[k]))
            ==> forall|k: int| 0 <= k < r@.len() ==> header_wf(#[trigger] r@[k]),
{
    let ghost s = hs@;
    let n: usize = hs.len();
    let target = "authorization".to_owned();
    let mut rest = reversed(hs);
    let mut out: Vec<Header> = Vec::new();
    let mut done: usize = 0;
    while rest.len() > 0
        invariant
            target@ == "authorization"@,
            s.len() == n,
            done as int + rest@.len() == s.len(),
            forall|m: int| 0 <= m < rest@.len() ==> #[trigger] rest@[m] == s[s.len() - 1 - m],
            out@ == surviving(s.subrange(0, done as int)),
            forall|k: int| 0 <= k < out@.len() ==> kept(#[trigger] out@[k]),
            (forall|k: int| 0 <= k < s.len() ==> header_wf(#[trigger] s[k]))
                ==> forall|k: int| 0 <= k < out@.len() ==> header_wf(#[trigger] out@[k]),
        decreases rest@.len(),
    {
        let h = rest.pop().unwrap();
        proof {
            assert(h == s[done as int]);
            reveal(Seq::filter);
            assert(s.subrange(0, done + 1).drop_last() =~= s.subrange(0, done as int));
            assert(s.subrange(0, done + 1).last() == s[done as int]);
        }
        if h.name != target {
            out.push(h);
        }
        done = done + 1;
    }
    proof {
        assert(s.subrange(0, s.len() as int) =~= s);
    }
    out
}

/// Removes, from the request of every entry, each header named exactly
/// `authorization`. Nothing else changes.
pub fn strip_auth_headers(har: &mut Har)
    requires
        har_wf(*old(har)),
    ensures
        stripped(*old(har), *final(har)),
        har_wf(*final(har)),
        forall|i: int, k: int|
            0 <= i < final(har).log.entries@.len() && 0 <= k
                < final(har).log.entries@[i].request.headers@.len()
                ==> (#[trigger] final(har).log.entries@[i].request.headers@[k]).name@
                != "authorization"@,
{
    let ghost es = har.log.entries@;
    let mut entries: Vec<Entry> = Vec::new();
    std::mem::swap(&mut har.log.entries, &mut entries);
    let mut rest = reversed(entries);
    let mut out: Vec<Entry> = Vec::new();
    while rest.len() > 0
        invariant
            rest@.len() + out@.len() == es.len(),
            forall|m: int| 0 <= m < rest@.len() ==> #[trigger] rest@[m] == es[es.len() - 1 - m],
            forall|i: int| 0 <= i < es.len() ==> entry_wf(#[trigger] es[i]),
            forall|i: int| 0 <= i < out@.len()
                ==> entry_stripped(es[i], #[trigger] out@[i]) && entry_wf(out@[i]),
            forall|i: int| 0 <= i < out@.len()
                ==> forall|k: int| 0 <= k < (#[trigger] out@[i]).request.headers@.len()
                    ==> kept(out@[i].request.headers@[k]),
        decreases rest@.len(),
    {
        let ghost i = out@.len() as int;
        let e = rest.pop().unwrap();
        proof {
            assert(e == es[i]);
        }
        let Entry { fields, request_at, request } = e;
        let Request { fields: request_fields, headers_at, headers } = request;
        let headers = keep_non_auth(headers);
        out.push(Entry {
            fields,
            request_at,
            request: Request { fields: request_fields, headers_at, headers },
        });
    }
    har.log.entries = out;
}

} // verus!
