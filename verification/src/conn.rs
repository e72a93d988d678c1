//! Connection bookkeeping for the reactor: per-connection state (one parser,
//! one optional cached response), opaque monotonically assigned tokens, and
//! the table of live connections. The reactor's sockets and readiness loop
//! live with the embedding program; within one connection, read strictly
//! precedes dispatch, dispatch precedes write, and write precedes removal.

use vstd::prelude::*;
use crate::encode::{encode_response, spec_encode};
use crate::http::{unique_keys, HttpRequest, HttpResponse};
use crate::parser::{feed, init_parser, AbsParser, Parser, State};

verus! {

/// An opaque connection identifier, assigned monotonically so that every
/// live connection's token is unique.
#[derive(Clone, Copy, Debug, PartialEq, Eq, Structural)]
pub struct Token(pub usize);

impl Token {
    /// Returns the current token and advances to the next one.
    pub fn add_one(&mut self) -> (t: Token)
        requires
            old(self).0 < usize::MAX,
        ensures
            t == *old(self),
            final(self).0 == old(self).0 + 1,
    {
        let tmp = *self;
        self.0 = self.0 + 1;
        tmp
    }
}

/// What one connection holds: the parser of its single request and the
/// response cached between dispatch and the write cycle.
#[verifier::ext_equal]
pub struct ClientView {
    pub parser: AbsParser,
    pub cache: Option<HttpResponse>,
}

/// One connection's state, from accept to close: a parser instance and an
/// optional cached response. The socket itself stays with the embedding
/// program under the same token.
#[derive(Debug)]
pub struct Client {
    parser: Parser,
    cache: Option<HttpResponse>,
}

impl View for Client {
    type V = ClientView;

    closed spec fn view(&self) -> ClientView {
        ClientView { parser: self.parser@, cache: self.cache }
    }
}

/// The header names of the client's request-in-progress stay distinct, and
/// a cached response keeps its body within the maximum payload size.
pub open spec fn client_wf(cv: ClientView) -> bool {
    &&& unique_keys(cv.parser.headers)
    &&& (match cv.cache {
        Some(r) => r.wf(),
        None => true,
    })
}

impl Client {
    /// A fresh connection: a new parser, nothing cached.
    pub fn new() -> (c: Client)
        ensures
            c@.parser == init_parser(),
            c@.cache is None,
            client_wf(c@),
    {
        let c = Client { parser: Parser::new(), cache: None };
        proof {
            assert(c@.parser.headers =~= Seq::<(Seq<u8>, Seq<u8>)>::empty());
        }
        c
    }

    /// Feeds one chunk read from the socket. A connection whose request is
    /// already complete is left untouched — further bytes are not fed to a
    /// finished parser — and reports completion again.
    pub fn on_data(&mut self, bytes: &[u8]) -> (complete: bool)
        requires
            client_wf(old(self)@),
        ensures
            client_wf(final(self)@),
            final(self)@.cache == old(self)@.cache,
            old(self)@.parser.state == State::Done ==> final(self)@ == old(self)@ && complete,
            old(self)@.parser.state != State::Done ==> final(self)@.parser == feed(
                old(self)@.parser,
                bytes@,
            ) && complete == (final(self)@.parser.state == State::Done),
    {
        if self.parser.done() {
            true
        } else {
            self.parser.parse(bytes)
        }
    }

    /// Whether the request is complete and ready to dispatch.
    pub fn request_ready(&self) -> (b: bool)
        ensures
            b == (self@.parser.state == State::Done),
    {
        self.parser.done()
    }

    /// The structured request, for dispatching.
    pub fn request(&self) -> (r: &HttpRequest)
        ensures
            r.method@ == self@.parser.method,
            r.path@ == self@.parser.path,
            r.protocol@ == self@.parser.protocol,
            r.version@ == self@.parser.version,
            r.headers@ == self@.parser.headers,
    {
        self.parser.request()
    }

    /// The body bytes of the request.
    pub fn body(&self) -> (b: &Vec<u8>)
        ensures
            b@ == self@.parser.body,
    {
        self.parser.body()
    }

    /// Caches the response produced by the dispatched handler, to be written
    /// when the socket becomes writable. An oversized body is a caller
    /// error, excluded here.
    pub fn set_response(&mut self, r: HttpResponse)
        requires
            r.wf(),
        ensures
            final(self)@.parser == old(self)@.parser,
            final(self)@.cache == Some(r),
    {
        self.cache = Some(r);
    }

    /// The wire bytes of the cached response, if one is cached.
    pub fn response_bytes(&self) -> (r: Option<Vec<u8>>)
        requires
            client_wf(self@),
        ensures
            match self@.cache {
                Some(resp) => r is Some && r->Some_0@ == spec_encode(resp),
                None => r is None,
            },
    {
        match &self.cache {
            Some(resp) => Some(encode_response(resp)),
            None => None,
        }
    }
}

/// The position of the entry for `t`.
pub open spec fn tok_idx(s: Seq<(usize, ClientView)>, t: usize) -> Option<int>
    decreases s.len(),
{
    if s.len() == 0 {
        None
    } else if s[0].0 == t {
        Some(0int)
    } else {
        match tok_idx(s.skip(1), t) {
            Some(i) => Some(i + 1),
            None => None,
        }
    }
}

/// All tokens in the table are distinct.
pub open spec fn unique_tokens(s: Seq<(usize, ClientView)>) -> bool {
    forall|i: int, j: int| 0 <= i < j < s.len() ==> s[i].0 != s[j].0
}

proof fn lemma_tok_idx_at(s: Seq<(usize, ClientView)>, t: usize, i: int)
    requires
        0 <= i < s.len(),
        s[i].0 == t,
        forall|j: int| 0 <= j < i ==> s[j].0 != t,
    ensures
        tok_idx(s, t) == Some(i),
    decreases i,
{
    if i > 0 {
        lemma_tok_idx_at(s.skip(1), t, i - 1);
    }
}

proof fn lemma_tok_idx_absent(s: Seq<(usize, ClientView)>, t: usize)
    requires
        forall|j: int| 0 <= j < s.len() ==> s[j].0 != t,
    ensures
        tok_idx(s, t) is None,
    decreases s.len(),
{
    if s.len() > 0 {
        lemma_tok_idx_absent(s.skip(1), t);
    }
}

/// The set of live connections, keyed by token. Owned exclusively by the
/// reactor loop; a connection exists here from accept to close.
pub struct ConnTable {
    entries: Vec<(usize, Client)>,
}

impl View for ConnTable {
    type V = Seq<(usize, ClientView)>;

    closed spec fn view(&self) -> Seq<(usize, ClientView)> {
        Seq::new(self.entries@.len(), |i: int| (self.entries@[i].0, self.entries@[i].1@))
    }
}

impl ConnTable {
    /// Tokens distinct, every client well formed.
    pub open spec fn wf(&self) -> bool {
        &&& unique_tokens(self@)
        &&& forall|i: int| 0 <= i < self@.len() ==> client_wf(#[trigger] self@[i].1)
    }

    /// An empty table.
    pub fn new() -> (t: ConnTable)
        ensures
            t@.len() == 0,
            t.wf(),
    {
        let t = ConnTable { entries: Vec::new() };
        proof {
            assert(t@ =~= Seq::<(usize, ClientView)>::empty());
        }
        t
    }

    /// How many connections are live.
    pub fn len(&self) -> (n: usize)
        ensures
            n == self@.len(),
    {
        self.entries.len()
    }

    /// Whether `t` is a live connection.
    pub fn contains(&self, t: usize) -> (b: bool)
        ensures
            b == (tok_idx(self@, t) is Some),
    {
        let mut i: usize = 0;
        while i < self.entries.len()
            invariant
                i <= self@.len(),
                self@.len() == self.entries@.len(),
                forall|j: int| 0 <= j < self@.len() ==> #[trigger] self@[j].0 == self.entries@[j].0,
                forall|j: int| 0 <= j < i ==> self@[j].0 != t,
            decreases self@.len() - i,
        {
            if self.entries[i].0 == t {
                proof {
                    lemma_tok_idx_at(self@, t, i as int);
                }
                return true;
            }
            i = i + 1;
        }
        proof {
            lemma_tok_idx_absent(self@, t);
        }
        false
    }

    /// Finds the position of `t`, for internal use.
    fn position(&self, t: usize) -> (r: Option<usize>)
        ensures
            match r {
                Some(i) => i < self@.len() && tok_idx(self@, t) == Some(i as int)
                    && self@[i as int].0 == t,
                None => tok_idx(self@, t) is None,
            },
    {
        let mut i: usize = 0;
        while i < self.entries.len()
            invariant
                i <= self@.len(),
                self@.len() == self.entries@.len(),
                forall|j: int| 0 <= j < self@.len() ==> #[trigger] self@[j].0 == self.entries@[j].0,
                forall|j: int| 0 <= j < i ==> self@[j].0 != t,
            decreases self@.len() - i,
        {
            if self.entries[i].0 == t {
                proof {
                    lemma_tok_idx_at(self@, t, i as int);
                }
                return Some(i);
            }
            i = i + 1;
        }
        proof {
            lemma_tok_idx_absent(self@, t);
        }
        None
    }

    /// Adds the connection accepted under token `t`. The reactor assigns
    /// tokens monotonically, so `t` must not be live yet.
    pub fn insert(&mut self, t: usize, c: Client)
        requires
            old(self).wf(),
            tok_idx(old(self)@, t) is None,
            client_wf(c@),
        ensures
            final(self).wf(),
            final(self)@ == old(self)@.push((t, c@)),
    {
        proof {
            assert forall|j: int| 0 <= j < self@.len() implies self@[j].0 != t by {
                if self@[j].0 == t {
                    lemma_tok_idx_first_witness(self@, t);
                }
            }
        }
        self.entries.push((t, c));
        proof {
            assert(self@ =~= old(self)@.push((t, c@)));
        }
    }

    /// Removes the connection under `t`, if live: after one full
    /// request/response cycle, on peer close, or on any non-transient error.
    /// Afterwards the token is not in the active set.
    pub fn remove(&mut self, t: usize)
        requires
            old(self).wf(),
        ensures
            final(self).wf(),
            tok_idx(final(self)@, t) is None,
            final(self)@ == (match tok_idx(old(self)@, t) {
                Some(i) => old(self)@.remove(i),
                None => old(self)@,
            }),
    {
        let ghost s0 = self@;
        match self.position(t) {
            Some(i) => {
                self.entries.remove(i);
                proof {
                    assert(self@ =~= s0.remove(i as int));
                    assert forall|j: int| 0 <= j < self@.len() implies self@[j].0 != t by {
                        if j < i as int {
                            assert(self@[j] == s0[j]);
                        } else {
                            assert(self@[j] == s0[j + 1]);
                        }
                    }
                    lemma_tok_idx_absent(self@, t);
                }
            },
            None => {
                proof {
                    assert forall|j: int| 0 <= j < self@.len() implies self@[j].0 != t by {
                        if self@[j].0 == t {
                            lemma_tok_idx_first_witness(self@, t);
                        }
                    }
                }
            },
        }
    }

    /// Feeds a chunk read from connection `t`'s socket: `None` when the
    /// token is not live, otherwise whether its request is now complete.
    pub fn feed_data(&mut self, t: usize, bytes: &[u8]) -> (r: Option<bool>)
        requires
            old(self).wf(),
        ensures
            final(self).wf(),
            match tok_idx(old(self)@, t) {
                Some(i) => {
                    let cv = old(self)@[i].1;
                    let cv2 = (ClientView {
                        parser: if cv.parser.state == State::Done {
                            cv.parser
                        } else {
                            feed(cv.parser, bytes@)
                        },
                        cache: cv.cache,
                    });
                    &&& final(self)@ == old(self)@.update(i, (t, cv2))
                    &&& r == Some(cv2.parser.state == State::Done)
                },
                None => final(self)@ == old(self)@ && r is None,
            },
    {
        let ghost s0 = self@;
        match self.position(t) {
            Some(i) => {
                let mut entry = self.entries.remove(i);
                let complete = entry.1.on_data(bytes);
                self.entries.insert(i, entry);
                proof {
                    assert(self@ =~= s0.update(i as int, (t, self@[i as int].1)));
                }
                Some(complete)
            },
            None => {
                proof {
                    assert(self@ =~= s0);
                }
                None
            },
        }
    }

    /// Whether connection `t`'s request is complete and ready to dispatch.
    pub fn request_ready(&self, t: usize) -> (r: Option<bool>)
        ensures
            match tok_idx(self@, t) {
                Some(i) => r == Some(self@[i].1.parser.state == State::Done),
                None => r is None,
            },
    {
        match self.position(t) {
            Some(i) => Some(self.entries[i].1.request_ready()),
            None => None,
        }
    }

    /// The structured request of connection `t`, for dispatching.
    pub fn request(&self, t: usize) -> (r: Option<&HttpRequest>)
        ensures
            match tok_idx(self@, t) {
                Some(i) => {
                    let p = self@[i].1.parser;
                    &&& r is Some
                    &&& r->Some_0.method@ == p.method
                    &&& r->Some_0.path@ == p.path
                    &&& r->Some_0.protocol@ == p.protocol
                    &&& r->Some_0.version@ == p.version
                    &&& r->Some_0.headers@ == p.headers
                },
                None => r is None,
            },
    {
        match self.position(t) {
            Some(i) => Some(self.entries[i].1.request()),
            None => None,
        }
    }

    /// Caches the dispatched response for connection `t`; reports whether
    /// the token was live. An oversized body is a caller error, excluded
    /// here.
    pub fn set_response(&mut self, t: usize, resp: HttpResponse) -> (r: bool)
        requires
            old(self).wf(),
            resp.wf(),
        ensures
            final(self).wf(),
            match tok_idx(old(self)@, t) {
                Some(i) => {
                    let cv = old(self)@[i].1;
                    &&& final(self)@ == old(self)@.update(
                        i,
                        (t, (ClientView { parser: cv.parser, cache: Some(resp) })),
                    )
                    &&& r
                },
                None => final(self)@ == old(self)@ && !r,
            },
    {
        let ghost s0 = self@;
        match self.position(t) {
            Some(i) => {
                let mut entry = self.entries.remove(i);
                entry.1.set_response(resp);
                self.entries.insert(i, entry);
                proof {
                    assert(self@ =~= s0.update(i as int, (t, self@[i as int].1)));
                }
                true
            },
            None => {
                proof {
                    assert(self@ =~= s0);
                }
                false
            },
        }
    }

    /// The wire bytes to send on connection `t`: `None` when the token is
    /// not live or nothing is cached yet.
    pub fn response_bytes(&self, t: usize) -> (r: Option<Vec<u8>>)
        requires
            self.wf(),
        ensures
            match tok_idx(self@, t) {
                Some(i) => (match self@[i].1.cache {
                    Some(resp) => r is Some && r->Some_0@ == spec_encode(resp),
                    None => r is None,
                }),
                None => r is None,
            },
    {
        match self.position(t) {
            Some(i) => self.entries[i].1.response_bytes(),
            None => None,
        }
    }
}

proof fn lemma_tok_idx_first_witness(s: Seq<(usize, ClientView)>, t: usize)
    requires
        exists|j: int| 0 <= j < s.len() && s[j].0 == t,
    ensures
        tok_idx(s, t) is Some,
    decreases s.len(),
{
    if s[0].0 == t {
    } else {
        let j = choose|j: int| 0 <= j < s.len() && s[j].0 == t;
        assert(s.skip(1)[j - 1].0 == t);
        lemma_tok_idx_first_witness(s.skip(1), t);
    }
}

} // verus!
