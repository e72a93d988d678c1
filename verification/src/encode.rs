//! The response wire encoder: status line, header lines in insertion order,
//! a blank separator line, then the body bytes.

use vstd::prelude::*;
use vstd::string::StringSliceAdditionalSpecFns;
use crate::bytes::{push_bytes, spec_dec, usize_to_dec};
use crate::http::HttpResponse;

verus! {

/// One header line on the wire: `name: value` and a line ending.
pub open spec fn spec_header_line(p: (Seq<u8>, Seq<u8>)) -> Seq<u8> {
    p.0 + ": ".spec_bytes() + p.1 + "\r\n".spec_bytes()
}

/// The header block: every line, duplicates kept, insertion order preserved.
pub open spec fn spec_header_block(hs: Seq<(Seq<u8>, Seq<u8>)>) -> Seq<u8>
    decreases hs.len(),
{
    if hs.len() == 0 {
        Seq::empty()
    } else {
        spec_header_line(hs[0]) + spec_header_block(hs.skip(1))
    }
}

proof fn lemma_header_block_snoc(hs: Seq<(Seq<u8>, Seq<u8>)>, p: (Seq<u8>, Seq<u8>))
    ensures
        spec_header_block(hs.push(p)) == spec_header_block(hs) + spec_header_line(p),
    decreases hs.len(),
{
    if hs.len() == 0 {
        reveal_with_fuel(spec_header_block, 2);
        assert(hs.push(p)[0] == p);
        assert(hs.push(p).skip(1) =~= Seq::<(Seq<u8>, Seq<u8>)>::empty());
        assert(spec_header_line(p) + Seq::<u8>::empty() =~= spec_header_line(p));
        assert(Seq::<u8>::empty() + spec_header_line(p) =~= spec_header_line(p));
    } else {
        assert(hs.push(p)[0] == hs[0]);
        assert(hs.push(p).skip(1) =~= hs.skip(1).push(p));
        lemma_header_block_snoc(hs.skip(1), p);
        assert(spec_header_line(hs[0]) + (spec_header_block(hs.skip(1)) + spec_header_line(p))
            =~= (spec_header_line(hs[0]) + spec_header_block(hs.skip(1))) + spec_header_line(p));
    }
}

/// The headers of a response as plain byte sequences.
pub open spec fn resp_headers(r: HttpResponse) -> Seq<(Seq<u8>, Seq<u8>)> {
    Seq::new(r.header@.len(), |i: int| (r.header@[i].0@, r.header@[i].1@))
}

/// The wire form of a response under protocol version HTTP/1.1: the status
/// line `HTTP/1.1 <code> <reason>`, each header line, a blank line, then the
/// body bytes. Content-Length/body consistency is the producing handler's
/// responsibility, not the encoder's.
pub open spec fn spec_encode(r: HttpResponse) -> Seq<u8> {
    "HTTP/1.1 ".spec_bytes() + spec_dec(r.code.spec_code()) + " ".spec_bytes()
        + r.code.spec_reason() + "\r\n".spec_bytes() + spec_header_block(resp_headers(r))
        + "\r\n".spec_bytes() + r.body@
}

/// Serializes a response into wire bytes. A body over the maximum payload
/// size is a caller error, rejected before encoding.
pub fn encode_response(r: &HttpResponse) -> (out: Vec<u8>)
    requires
        r.wf(),
    ensures
        out@ == spec_encode(*r),
{
    let mut out: Vec<u8> = Vec::new();
    push_bytes(&mut out, "HTTP/1.1 ".as_bytes());
    let (code, reason) = r.code.get();
    let dec = usize_to_dec(code as usize);
    push_bytes(&mut out, dec.as_slice());
    push_bytes(&mut out, " ".as_bytes());
    push_bytes(&mut out, reason.as_slice());
    push_bytes(&mut out, "\r\n".as_bytes());
    let ghost status = out@;
    let mut i: usize = 0;
    while i < r.header.len()
        invariant
            i <= r.header@.len(),
            out@ == status + spec_header_block(resp_headers(*r).take(i as int)),
        decreases r.header@.len() - i,
    {
        let pair = &r.header[i];
        push_bytes(&mut out, pair.0.as_slice());
        push_bytes(&mut out, ": ".as_bytes());
        push_bytes(&mut out, pair.1.as_slice());
        push_bytes(&mut out, "\r\n".as_bytes());
        proof {
            let hs = resp_headers(*r);
            assert(hs.take(i as int).push(hs[i as int]) =~= hs.take(i + 1));
            lemma_header_block_snoc(hs.take(i as int), hs[i as int]);
            assert(out@ =~= status + spec_header_block(hs.take(i + 1)));
        }
        i = i + 1;
    }
    proof {
        assert(resp_headers(*r).take(r.header@.len() as int) =~= resp_headers(*r));
    }
    push_bytes(&mut out, "\r\n".as_bytes());
    push_bytes(&mut out, r.body.as_slice());
    proof {
        assert(out@ =~= spec_encode(*r));
    }
    out
}

} // verus!
