//! The built-in demo handler: an HTML page echoing the request path and a
//! table of the received headers.

use vstd::prelude::*;
use vstd::string::StringSliceAdditionalSpecFns;
use crate::bytes::{push_bytes, spec_dec};
use crate::http::{html, HttpRequest, HttpResponse};
use crate::status::ResponseCode;
use crate::MAX_CONTENT_SIZE;

verus! {

/// One table row showing a header pair.
pub open spec fn spec_row(p: (Seq<u8>, Seq<u8>)) -> Seq<u8> {
    "<tr><th>".spec_bytes() + p.0 + "</th><th>".spec_bytes() + p.1 + "</th></tr>".spec_bytes()
}

/// All header rows, in the order the mapping holds them.
pub open spec fn spec_rows(hs: Seq<(Seq<u8>, Seq<u8>)>) -> Seq<u8>
    decreases hs.len(),
{
    if hs.len() == 0 {
        Seq::empty()
    } else {
        spec_row(hs[0]) + spec_rows(hs.skip(1))
    }
}

proof fn lemma_rows_snoc(hs: Seq<(Seq<u8>, Seq<u8>)>, p: (Seq<u8>, Seq<u8>))
    ensures
        spec_rows(hs.push(p)) == spec_rows(hs) + spec_row(p),
    decreases hs.len(),
{
    if hs.len() == 0 {
        reveal_with_fuel(spec_rows, 2);
        assert(hs.push(p)[0] == p);
        assert(hs.push(p).skip(1) =~= Seq::<(Seq<u8>, Seq<u8>)>::empty());
        assert(spec_row(p) + Seq::<u8>::empty() =~= spec_row(p));
        assert(Seq::<u8>::empty() + spec_row(p) =~= spec_row(p));
    } else {
        assert(hs.push(p)[0] == hs[0]);
        assert(hs.push(p).skip(1) =~= hs.skip(1).push(p));
        lemma_rows_snoc(hs.skip(1), p);
        assert(spec_row(hs[0]) + (spec_rows(hs.skip(1)) + spec_row(p)) =~= (spec_row(hs[0])
            + spec_rows(hs.skip(1))) + spec_row(p));
    }
}

/// The page text: a heading with the request path, then the header table.
pub open spec fn spec_default_page(req: HttpRequest) -> Seq<u8> {
    "<!DOCTYPE html>\n<html lang='en'>\n    <head>\n        <title>Amazing site!</title>\n        <meta charset='utf-8'>\n    </head>\n    <body>\n        <h1>".spec_bytes()
        + req.path@
        + "</h1>\n        <table border='1'>".spec_bytes()
        + spec_rows(req.headers@)
        + "        </table>\n    </body>\n</html>".spec_bytes()
}

/// Builds the page text of the demo handler.
fn build_default_page(req: &HttpRequest) -> (page: Vec<u8>)
    ensures
        page@ == spec_default_page(*req),
{
    let mut page: Vec<u8> = Vec::new();
    push_bytes(
        &mut page,
        "<!DOCTYPE html>\n<html lang='en'>\n    <head>\n        <title>Amazing site!</title>\n        <meta charset='utf-8'>\n    </head>\n    <body>\n        <h1>".as_bytes(),
    );
    push_bytes(&mut page, req.path.as_slice());
    push_bytes(&mut page, "</h1>\n        <table border='1'>".as_bytes());
    let ghost head = page@;
    let mut i: usize = 0;
    let n = req.headers.len();
    while i < n
        invariant
            i <= n,
            n == req.headers@.len(),
            page@ == head + spec_rows(req.headers@.take(i as int)),
        decreases n - i,
    {
        let pair = req.headers.pair_at(i);
        push_bytes(&mut page, "<tr><th>".as_bytes());
        push_bytes(&mut page, pair.0.as_slice());
        push_bytes(&mut page, "</th><th>".as_bytes());
        push_bytes(&mut page, pair.1.as_slice());
        push_bytes(&mut page, "</th></tr>".as_bytes());
        proof {
            let hs = req.headers@;
            assert(hs.take(i as int).push(hs[i as int]) =~= hs.take(i + 1));
            lemma_rows_snoc(hs.take(i as int), hs[i as int]);
            assert(page@ =~= head + spec_rows(hs.take(i + 1)));
        }
        i = i + 1;
    }
    proof {
        assert(req.headers@.take(req.headers@.len() as int) =~= req.headers@);
    }
    push_bytes(&mut page, "        </table>\n    </body>\n</html>".as_bytes());
    proof {
        assert(page@ =~= spec_default_page(*req));
    }
    page
}

/// The demo handler. A request whose page would exceed the maximum payload
/// size is a caller error, excluded here; `try_handle_default` checks first.
/// The response is the page as an OK HTML body with its two headers.
pub fn handle_default(req: &HttpRequest) -> (r: HttpResponse)
    requires
        spec_default_page(*req).len() <= MAX_CONTENT_SIZE,
    ensures
        r.code == ResponseCode::OK,
        r.body@ == spec_default_page(*req),
        r.header@.len() == 2,
        r.header@[0].0@ == "Content-Type".spec_bytes(),
        r.header@[0].1@ == "text/html".spec_bytes(),
        r.header@[1].0@ == "Content-Length".spec_bytes(),
        r.header@[1].1@ == spec_dec(spec_default_page(*req).len() as int),
        r.wf(),
{
    let page = build_default_page(req);
    html(page)
}

/// The demo handler with the size bound checked at run time: `None` exactly
/// when the page would exceed the maximum payload size.
pub fn try_handle_default(req: &HttpRequest) -> (r: Option<HttpResponse>)
    ensures
        match r {
            Some(resp) => spec_default_page(*req).len() <= MAX_CONTENT_SIZE && resp.code
                == ResponseCode::OK && resp.body@ == spec_default_page(*req) && resp.header@.len()
                == 2 && resp.header@[0].0@ == "Content-Type".spec_bytes() && resp.header@[0].1@
                == "text/html".spec_bytes() && resp.header@[1].0@
                == "Content-Length".spec_bytes() && resp.header@[1].1@ == spec_dec(
                spec_default_page(*req).len() as int,
            ) && resp.wf(),
            None => spec_default_page(*req).len() > MAX_CONTENT_SIZE,
        },
{
    let page = build_default_page(req);
    if page.len() <= MAX_CONTENT_SIZE {
        Some(html(page))
    } else {
        None
    }
}

} // verus!
