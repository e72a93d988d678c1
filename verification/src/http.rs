//! The request/response data model: a header mapping with last-write-wins
//! insertion, the structured request a parser produces, and the response a
//! handler returns.

use vstd::prelude::*;
use vstd::string::StringSliceAdditionalSpecFns;
use vstd::string::StrSliceExecFns;
use crate::bytes::{slice_eq, usize_to_dec, spec_dec};
use crate::method::Method;
use crate::status::ResponseCode;
use crate::MAX_CONTENT_SIZE;

verus! {

/// The position of the first pair in `hs` whose name is `k`.
pub open spec fn key_idx(hs: Seq<(Seq<u8>, Seq<u8>)>, k: Seq<u8>) -> Option<int>
    decreases hs.len(),
{
    if hs.len() == 0 {
        None
    } else if hs[0].0 == k {
        Some(0int)
    } else {
        match key_idx(hs.skip(1), k) {
            Some(i) => Some(i + 1),
            None => None,
        }
    }
}

/// The value stored under name `k`, if any.
pub open spec fn assoc_get(hs: Seq<(Seq<u8>, Seq<u8>)>, k: Seq<u8>) -> Option<Seq<u8>> {
    match key_idx(hs, k) {
        Some(i) => Some(hs[i].1),
        None => None,
    }
}

/// Mapping `k` to `v`: an existing pair under the same name is dropped and
/// the new pair appended, so the last write wins.
pub open spec fn assoc_insert(
    hs: Seq<(Seq<u8>, Seq<u8>)>,
    k: Seq<u8>,
    v: Seq<u8>,
) -> Seq<(Seq<u8>, Seq<u8>)> {
    match key_idx(hs, k) {
        Some(i) => hs.remove(i).push((k, v)),
        None => hs.push((k, v)),
    }
}

/// No two pairs share a name.
pub open spec fn unique_keys(hs: Seq<(Seq<u8>, Seq<u8>)>) -> bool {
    forall|i: int, j: int| 0 <= i < j < hs.len() ==> hs[i].0 != hs[j].0
}

proof fn lemma_key_idx_at(hs: Seq<(Seq<u8>, Seq<u8>)>, k: Seq<u8>, i: int)
    requires
        0 <= i < hs.len(),
        hs[i].0 == k,
        forall|j: int| 0 <= j < i ==> hs[j].0 != k,
    ensures
        key_idx(hs, k) == Some(i),
    decreases i,
{
    if i > 0 {
        lemma_key_idx_at(hs.skip(1), k, i - 1);
    }
}

proof fn lemma_key_idx_absent(hs: Seq<(Seq<u8>, Seq<u8>)>, k: Seq<u8>)
    requires
        forall|j: int| 0 <= j < hs.len() ==> hs[j].0 != k,
    ensures
        key_idx(hs, k) is None,
    decreases hs.len(),
{
    if hs.len() > 0 {
        lemma_key_idx_absent(hs.skip(1), k);
    }
}

/// Law (last write wins): after an insertion, looking the name up yields
/// exactly the value just written.
pub proof fn lemma_insert_get(hs: Seq<(Seq<u8>, Seq<u8>)>, k: Seq<u8>, v: Seq<u8>)
    requires
        unique_keys(hs),
    ensures
        assoc_get(assoc_insert(hs, k, v), k) == Some(v),
{
    let new = assoc_insert(hs, k, v);
    match key_idx(hs, k) {
        Some(i) => {
            lemma_key_idx_props(hs, k);
            assert forall|j: int| 0 <= j < new.len() - 1 implies new[j].0 != k by {
                if j < i {
                    assert(new[j] == hs[j]);
                } else {
                    assert(new[j] == hs[j + 1]);
                }
            }
            lemma_key_idx_at(new, k, new.len() - 1);
        },
        None => {
            lemma_key_idx_props(hs, k);
            lemma_key_idx_at(new, k, new.len() - 1);
        },
    }
}

/// Law: an insertion leaves every other name's value untouched.
pub proof fn lemma_insert_get_other(hs: Seq<(Seq<u8>, Seq<u8>)>, k: Seq<u8>, v: Seq<u8>, k2: Seq<u8>)
    requires
        unique_keys(hs),
        k2 != k,
    ensures
        assoc_get(assoc_insert(hs, k, v), k2) == assoc_get(hs, k2),
{
    let new = assoc_insert(hs, k, v);
    lemma_key_idx_props(hs, k);
    lemma_key_idx_props(hs, k2);
    match key_idx(hs, k2) {
        Some(j) => {
            match key_idx(hs, k) {
                Some(i) => {
                    if j < i {
                        assert(new[j] == hs[j]);
                        assert forall|l: int| 0 <= l < j implies new[l].0 != k2 by {
                            assert(new[l] == hs[l]);
                        }
                        lemma_key_idx_at(new, k2, j);
                    } else {
                        assert(new[j - 1] == hs[j]);
                        assert forall|l: int| 0 <= l < j - 1 implies new[l].0 != k2 by {
                            if l < i {
                                assert(new[l] == hs[l]);
                            } else {
                                assert(new[l] == hs[l + 1]);
                                // uniqueness: only position j holds k2
                            }
                        }
                        lemma_key_idx_at(new, k2, j - 1);
                    }
                },
                None => {
                    assert(new[j] == hs[j]);
                    assert forall|l: int| 0 <= l < j implies new[l].0 != k2 by {
                        assert(new[l] == hs[l]);
                    }
                    lemma_key_idx_at(new, k2, j);
                },
            }
        },
        None => {
            assert forall|l: int| 0 <= l < new.len() implies new[l].0 != k2 by {
                if l == new.len() - 1 {
                } else {
                    match key_idx(hs, k) {
                        Some(i) => {
                            if l < i {
                                assert(new[l] == hs[l]);
                            } else {
                                assert(new[l] == hs[l + 1]);
                            }
                        },
                        None => {
                            assert(new[l] == hs[l]);
                        },
                    }
                }
            }
            lemma_key_idx_absent(new, k2);
        },
    }
}

/// What a found index means: it is in range, it holds the key, and nothing
/// before it does; absence means no pair holds the key.
proof fn lemma_key_idx_props(hs: Seq<(Seq<u8>, Seq<u8>)>, k: Seq<u8>)
    ensures
        match key_idx(hs, k) {
            Some(i) => 0 <= i < hs.len() && hs[i].0 == k && (forall|j: int|
                0 <= j < i ==> hs[j].0 != k),
            None => forall|j: int| 0 <= j < hs.len() ==> hs[j].0 != k,
        },
    decreases hs.len(),
{
    if hs.len() > 0 && hs[0].0 != k {
        lemma_key_idx_props(hs.skip(1), k);
        match key_idx(hs.skip(1), k) {
            Some(i) => {
                assert forall|j: int| 0 <= j < i + 1 implies hs[j].0 != k by {
                    if j > 0 {
                        assert(hs[j] == hs.skip(1)[j - 1]);
                    }
                }
            },
            None => {
                assert forall|j: int| 0 <= j < hs.len() implies hs[j].0 != k by {
                    if j > 0 {
                        assert(hs[j] == hs.skip(1)[j - 1]);
                    }
                }
            },
        }
    }
}

/// A header mapping: names to values, case as received, the last write under
/// a name winning. Backed by a list of pairs with pairwise-distinct names;
/// the order of the pairs is observable and deterministic.
#[derive(Debug)]
pub struct Headers {
    pairs: Vec<(Vec<u8>, Vec<u8>)>,
}

impl View for Headers {
    type V = Seq<(Seq<u8>, Seq<u8>)>;

    closed spec fn view(&self) -> Seq<(Seq<u8>, Seq<u8>)> {
        Seq::new(self.pairs@.len(), |i: int| (self.pairs@[i].0@, self.pairs@[i].1@))
    }
}

impl Headers {
    /// Names are pairwise distinct; every constructor and method keeps this.
    pub open spec fn wf(&self) -> bool {
        unique_keys(self@)
    }

    /// An empty mapping.
    pub fn new() -> (h: Headers)
        ensures
            h@ == Seq::<(Seq<u8>, Seq<u8>)>::empty(),
            h.wf(),
    {
        let h = Headers { pairs: Vec::new() };
        proof {
            assert(h@ =~= Seq::<(Seq<u8>, Seq<u8>)>::empty());
        }
        h
    }

    /// The number of distinct names stored.
    pub fn len(&self) -> (n: usize)
        ensures
            n == self@.len(),
    {
        self.pairs.len()
    }

    /// The pair at position `i`, for iteration.
    pub fn pair_at(&self, i: usize) -> (p: (&Vec<u8>, &Vec<u8>))
        requires
            i < self@.len(),
        ensures
            p.0@ == self@[i as int].0,
            p.1@ == self@[i as int].1,
    {
        let pair = &self.pairs[i];
        (&pair.0, &pair.1)
    }

    /// The value stored under `name`, if any.
    pub fn get(&self, name: &[u8]) -> (r: Option<&Vec<u8>>)
        ensures
            match r {
                Some(v) => assoc_get(self@, name@) == Some(v@),
                None => assoc_get(self@, name@) is None,
            },
    {
        let mut i: usize = 0;
        while i < self.pairs.len()
            invariant
                i <= self@.len(),
                self@.len() == self.pairs@.len(),
                forall|j: int| 0 <= j < self@.len() ==> self@[j] == (
                    self.pairs@[j].0@,
                    self.pairs@[j].1@,
                ),
                forall|j: int| 0 <= j < i ==> self@[j].0 != name@,
            decreases self@.len() - i,
        {
            if slice_eq(self.pairs[i].0.as_slice(), name) {
                proof {
                    lemma_key_idx_at(self@, name@, i as int);
                }
                return Some(&self.pairs[i].1);
            }
            i = i + 1;
        }
        proof {
            lemma_key_idx_absent(self@, name@);
        }
        None
    }

    /// Stores `value` under `name`; an earlier value under the same name is
    /// replaced (last write wins).
    pub fn insert(&mut self, name: Vec<u8>, value: Vec<u8>)
        requires
            old(self).wf(),
        ensures
            final(self)@ == assoc_insert(old(self)@, name@, value@),
            final(self).wf(),
    {
        let ghost hs0 = self@;
        let mut i: usize = 0;
        let mut found = false;
        while i < self.pairs.len()
            invariant_except_break
                !found,
            invariant
                self@ == hs0,
                i <= self@.len(),
                self@.len() == self.pairs@.len(),
                forall|j: int| 0 <= j < i ==> self@[j].0 != name@,
            ensures
                self@ == hs0,
                i <= self@.len(),
                self@.len() == self.pairs@.len(),
                found ==> i < self@.len() && self@[i as int].0 == name@,
                forall|j: int| 0 <= j < i ==> self@[j].0 != name@,
                !found ==> i == self@.len(),
            decreases self@.len() - i,
        {
            if slice_eq(self.pairs[i].0.as_slice(), name.as_slice()) {
                found = true;
                break;
            }
            i = i + 1;
        }
        if found {
            proof {
                lemma_key_idx_at(hs0, name@, i as int);
            }
            self.pairs.remove(i);
            proof {
                assert(self@ =~= hs0.remove(i as int));
            }
        } else {
            proof {
                lemma_key_idx_absent(hs0, name@);
            }
        }
        let ghost mid = self@;
        self.pairs.push((name, value));
        proof {
            assert(self@ =~= mid.push((name@, value@)));
            let new = self@;
            assert forall|a: int, b: int| 0 <= a < b < new.len() implies new[a].0 != new[b].0 by {
                if b < new.len() - 1 {
                    // both pairs predate the append
                    if found {
                        if i as int <= a {
                            assert(new[a] == hs0[a + 1]);
                        }
                        if i as int <= b {
                            assert(new[b] == hs0[b + 1]);
                        }
                    }
                } else {
                    // new[b] is the appended pair: no remaining name equals it
                    if found {
                        if a < i as int {
                            assert(new[a] == hs0[a]);
                        } else {
                            assert(new[a] == hs0[a + 1]);
                            assert(hs0[i as int].0 == name@);
                        }
                    }
                }
            }
        }
    }
}

/// A structured request, built incrementally by a parser and immutable once
/// the parser is done. Field texts are raw bytes from the wire, undecoded.
#[derive(Debug)]
pub struct HttpRequest {
    pub method: Method,
    pub path: Vec<u8>,
    pub protocol: Vec<u8>,
    pub version: Vec<u8>,
    pub headers: Headers,
}

/// A response: a status, an ordered header list in which duplicates are
/// permitted and insertion order is preserved, and a bounded body.
#[derive(Debug)]
pub struct HttpResponse {
    pub code: ResponseCode,
    pub header: Vec<(Vec<u8>, Vec<u8>)>,
    pub body: Vec<u8>,
}

impl HttpResponse {
    /// The body never exceeds the fixed maximum payload size.
    pub open spec fn wf(&self) -> bool {
        self.body@.len() <= MAX_CONTENT_SIZE
    }
}

/// Builds an OK response carrying `text` as an HTML body, with Content-Type
/// and Content-Length headers. A body over the maximum payload size is a
/// caller error, excluded here.
pub fn html(text: Vec<u8>) -> (r: HttpResponse)
    requires
        text@.len() <= MAX_CONTENT_SIZE,
    ensures
        r.code == ResponseCode::OK,
        r.body@ == text@,
        r.header@.len() == 2,
        r.header@[0].0@ == "Content-Type".spec_bytes(),
        r.header@[0].1@ == "text/html".spec_bytes(),
        r.header@[1].0@ == "Content-Length".spec_bytes(),
        r.header@[1].1@ == spec_dec(text@.len() as int),
        r.wf(),
{
    let len = text.len();
    let mut header: Vec<(Vec<u8>, Vec<u8>)> = Vec::new();
    header.push(("Content-Type".as_bytes_vec(), "text/html".as_bytes_vec()));
    header.push(("Content-Length".as_bytes_vec(), usize_to_dec(len)));
    HttpResponse { code: ResponseCode::OK, header, body: text }
}

} // verus!
