//! The incremental, resumable HTTP request parser. It consumes byte chunks
//! whose boundaries bear no relation to message structure, advancing a
//! forward-only state machine one byte at a time and resuming exactly where
//! the previous call left off.
//!
//! The behaviour is pinned by a byte-level model: `step` is the transition
//! on one byte, `feed` folds it over a chunk, and `Parser::parse` is proved
//! to realize `feed` exactly. Streaming invariance — that chunk boundaries
//! cannot change the outcome — is `lemma_feed_split`.

use vstd::prelude::*;
use vstd::string::StringSliceAdditionalSpecFns;
use core::mem::swap;
use crate::bytes::{find_byte, parse_usize, slice_eq, spec_dec, spec_find, spec_parse_usize,
    spec_trim, sub_vec, trim};
use crate::http::{assoc_insert, unique_keys, Headers, HttpRequest};
use crate::method::{spec_method_from, Method, MethodView};
use crate::MAX_CONTENT_SIZE;

verus! {

/// The parser phases, in the order they are traversed. `Done` is terminal.
#[derive(Clone, Copy, Debug, PartialEq, Eq, Structural)]
pub enum State {
    Method,
    Path,
    Protocol,
    Version,
    Header,
    Content,
    Done,
}

/// The mathematical state of a parser: the phase, the bytes accumulated for
/// the field in progress, the request fields settled so far, the declared
/// content length if one was recognized, and the body bytes retained.
#[verifier::ext_equal]
pub struct AbsParser {
    pub state: State,
    pub acc: Seq<u8>,
    pub method: MethodView,
    pub path: Seq<u8>,
    pub protocol: Seq<u8>,
    pub version: Seq<u8>,
    pub headers: Seq<(Seq<u8>, Seq<u8>)>,
    pub content: Option<int>,
    pub body: Seq<u8>,
}

/// The state of a freshly created parser.
pub open spec fn init_parser() -> AbsParser {
    AbsParser {
        state: State::Method,
        acc: Seq::empty(),
        method: MethodView::Unset,
        path: Seq::empty(),
        protocol: Seq::empty(),
        version: Seq::empty(),
        headers: Seq::empty(),
        content: None,
        body: Seq::empty(),
    }
}

/// How many body bytes will be retained: the declared length capped at the
/// maximum payload size, or zero when no length was recognized.
pub open spec fn effective_len(content: Option<int>) -> int {
    match content {
        Some(n) => if n > MAX_CONTENT_SIZE {
            MAX_CONTENT_SIZE as int
        } else {
            n
        },
        None => 0,
    }
}

/// A completed header line: split at the first colon, the value trimmed, the
/// pair stored with the last write winning. The header named Content-Length
/// (case-sensitive) sets the expected body length if its value parses as an
/// unsigned integer; otherwise the length is left as it was. A line without
/// a colon is ignored.
pub open spec fn process_header_line(m: AbsParser) -> AbsParser {
    let line = m.acc;
    match spec_find(line, 58) {
        Some(c) => {
            let hname = line.take(c);
            let value = spec_trim(line.skip(c + 1));
            let content2 = if hname == "Content-Length".spec_bytes() {
                match spec_parse_usize(value) {
                    Some(n) => Some(n),
                    None => m.content,
                }
            } else {
                m.content
            };
            AbsParser {
                acc: Seq::empty(),
                headers: assoc_insert(m.headers, hname, value),
                content: content2,
                ..m
            }
        },
        None => AbsParser { acc: Seq::empty(), ..m },
    }
}

/// The transition on one byte. Method and path end at a space, the protocol
/// name at a slash, the version and each header line at a line feed with
/// carriage returns ignored; the blank line ends the header section and
/// moves straight to `Done` when no body bytes are owed; body bytes are
/// copied until the effective length is reached. `Done` absorbs everything.
pub open spec fn step(m: AbsParser, b: u8) -> AbsParser {
    match m.state {
        State::Method => if b == 32 {
            AbsParser { state: State::Path, acc: Seq::empty(), method: spec_method_from(m.acc), ..m }
        } else {
            AbsParser { acc: m.acc.push(b), ..m }
        },
        State::Path => if b == 32 {
            AbsParser { state: State::Protocol, acc: Seq::empty(), path: m.acc, ..m }
        } else {
            AbsParser { acc: m.acc.push(b), ..m }
        },
        State::Protocol => if b == 47 {
            AbsParser { state: State::Version, acc: Seq::empty(), protocol: m.acc, ..m }
        } else {
            AbsParser { acc: m.acc.push(b), ..m }
        },
        State::Version => if b == 10 {
            AbsParser { state: State::Header, acc: Seq::empty(), version: m.acc, ..m }
        } else if b == 13 {
            m
        } else {
            AbsParser { acc: m.acc.push(b), ..m }
        },
        State::Header => if b == 10 {
            if m.acc.len() == 0 {
                AbsParser {
                    state: if effective_len(m.content) == 0 {
                        State::Done
                    } else {
                        State::Content
                    },
                    ..m
                }
            } else {
                process_header_line(m)
            }
        } else if b == 13 {
            m
        } else {
            AbsParser { acc: m.acc.push(b), ..m }
        },
        State::Content => {
            let body2 = m.body.push(b);
            AbsParser {
                state: if body2.len() >= effective_len(m.content) {
                    State::Done
                } else {
                    State::Content
                },
                body: body2,
                ..m
            }
        },
        State::Done => m,
    }
}

/// `step` folded over a whole chunk, first byte first.
pub open spec fn feed(m: AbsParser, s: Seq<u8>) -> AbsParser
    decreases s.len(),
{
    if s.len() == 0 {
        m
    } else {
        feed(step(m, s[0]), s.skip(1))
    }
}

proof fn lemma_feed_snoc(m: AbsParser, s: Seq<u8>, b: u8)
    ensures
        feed(m, s.push(b)) == step(feed(m, s), b),
    decreases s.len(),
{
    if s.len() == 0 {
        assert(s.push(b)[0] == b);
        assert(s.push(b).skip(1) =~= Seq::<u8>::empty());
        assert(feed(m, s.push(b)) == feed(step(m, b), Seq::<u8>::empty()));
        assert(feed(m, s) == m);
    } else {
        assert(s.push(b)[0] == s[0]);
        assert(s.push(b).skip(1) =~= s.skip(1).push(b));
        lemma_feed_snoc(step(m, s[0]), s.skip(1), b);
        assert(feed(m, s.push(b)) == feed(step(m, s[0]), s.skip(1).push(b)));
        assert(feed(m, s) == feed(step(m, s[0]), s.skip(1)));
    }
}

/// Law (streaming invariance): feeding a byte sequence in two pieces, at any
/// split point, leaves the parser exactly where feeding it whole does. By
/// induction, any chunking of the input — down to one byte at a time —
/// produces the same structured request and the same final state.
pub proof fn lemma_feed_split(m: AbsParser, a: Seq<u8>, b: Seq<u8>)
    ensures
        feed(m, a + b) == feed(feed(m, a), b),
    decreases a.len(),
{
    if a.len() == 0 {
        assert(a + b =~= b);
    } else {
        assert((a + b)[0] == a[0]);
        assert((a + b).skip(1) =~= a.skip(1) + b);
        lemma_feed_split(step(m, a[0]), a.skip(1), b);
    }
}

/// All chunks of a sequence of chunks, joined in order.
pub open spec fn concat_chunks(cs: Seq<Seq<u8>>) -> Seq<u8>
    decreases cs.len(),
{
    if cs.len() == 0 {
        Seq::empty()
    } else {
        cs[0] + concat_chunks(cs.skip(1))
    }
}

/// `feed` applied to one chunk after another.
pub open spec fn feed_chunks(m: AbsParser, cs: Seq<Seq<u8>>) -> AbsParser
    decreases cs.len(),
{
    if cs.len() == 0 {
        m
    } else {
        feed_chunks(feed(m, cs[0]), cs.skip(1))
    }
}

/// Law (streaming invariance, generalized): delivering a byte sequence as
/// any number of chunks of any sizes — including one byte at a time — leaves
/// the parser exactly where delivering it whole does.
pub proof fn lemma_chunking_irrelevant(m: AbsParser, cs: Seq<Seq<u8>>)
    ensures
        feed_chunks(m, cs) == feed(m, concat_chunks(cs)),
    decreases cs.len(),
{
    if cs.len() == 0 {
        assert(feed(m, Seq::<u8>::empty()) == m);
    } else {
        lemma_chunking_irrelevant(feed(m, cs[0]), cs.skip(1));
        lemma_feed_split(m, cs[0], concat_chunks(cs.skip(1)));
    }
}

/// The rank of a phase in the forward-only order.
pub open spec fn state_rank(s: State) -> int {
    match s {
        State::Method => 0,
        State::Path => 1,
        State::Protocol => 2,
        State::Version => 3,
        State::Header => 4,
        State::Content => 5,
        State::Done => 6,
    }
}

/// Law: a parser advances through its states strictly forward, never
/// backward, whatever bytes arrive.
pub proof fn lemma_feed_forward(m: AbsParser, s: Seq<u8>)
    ensures
        state_rank(feed(m, s).state) >= state_rank(m.state),
    decreases s.len(),
{
    if s.len() > 0 {
        lemma_feed_forward(step(m, s[0]), s.skip(1));
    }
}

/// Law: `Done` is terminal; a parser that has completed a message is never
/// changed by further input.
pub proof fn lemma_done_absorbing(m: AbsParser, s: Seq<u8>)
    requires
        m.state == State::Done,
    ensures
        feed(m, s) == m,
    decreases s.len(),
{
    if s.len() > 0 {
        lemma_done_absorbing(m, s.skip(1));
    }
}

/// Reachable parser states: the body is empty before the content phase,
/// fills strictly below the effective length during it, and never exceeds
/// the maximum payload size.
pub open spec fn abs_wf(m: AbsParser) -> bool {
    &&& (m.state == State::Content ==> m.body.len() < effective_len(m.content))
    &&& (m.state != State::Content && m.state != State::Done ==> m.body.len() == 0)
    &&& m.body.len() <= MAX_CONTENT_SIZE
    &&& (match m.content {
        Some(n) => n >= 0,
        None => true,
    })
}

proof fn lemma_step_preserves_wf(m: AbsParser, b: u8)
    requires
        abs_wf(m),
    ensures
        abs_wf(step(m, b)),
{
}

/// Law: from any reachable parser state, the body bytes retained never
/// exceed the maximum payload size, however much input arrives.
pub proof fn lemma_feed_preserves_wf(m: AbsParser, s: Seq<u8>)
    requires
        abs_wf(m),
    ensures
        abs_wf(feed(m, s)),
    decreases s.len(),
{
    if s.len() > 0 {
        lemma_step_preserves_wf(m, s[0]);
        lemma_feed_preserves_wf(step(m, s[0]), s.skip(1));
    }
}

/// Law: a request without a recognized Content-Length completes on the
/// blank line that ends the header section, with an empty body.
pub proof fn lemma_no_content_length(m: AbsParser)
    requires
        abs_wf(m),
        m.state == State::Header,
        m.acc.len() == 0,
        m.content is None,
    ensures
        step(m, 10).state == State::Done,
        step(m, 10).body.len() == 0,
{
}

/// Law: in the content phase, input fills the body up to the effective
/// length and no further; the parser is done exactly when enough bytes have
/// been supplied, regardless of how they were chunked.
pub proof fn lemma_content_fill(m: AbsParser, s: Seq<u8>)
    requires
        m.state == State::Content,
        m.body.len() < effective_len(m.content),
    ensures
        ({
            let eff = effective_len(m.content);
            let need = eff - m.body.len();
            let taken = if s.len() <= need {
                s.len() as int
            } else {
                need
            };
            let r = feed(m, s);
            &&& r.body == m.body + s.take(taken)
            &&& (r.state == State::Done <==> s.len() >= need)
            &&& (r.state == State::Done || r.state == State::Content)
            &&& r.content == m.content
            &&& r.headers == m.headers
            &&& r.method == m.method
            &&& r.path == m.path
            &&& r.protocol == m.protocol
            &&& r.version == m.version
        }),
    decreases s.len(),
{
    let eff = effective_len(m.content);
    let need = eff - m.body.len();
    if s.len() == 0 {
        assert(m.body + s.take(0) =~= m.body);
    } else {
        let m2 = step(m, s[0]);
        assert(m2.body == m.body.push(s[0]));
        if need == 1 {
            lemma_done_absorbing(m2, s.skip(1));
            assert(m.body + s.take(1) =~= m.body.push(s[0]));
        } else {
            lemma_content_fill(m2, s.skip(1));
            let taken = if s.len() <= need {
                s.len() as int
            } else {
                need
            };
            assert(m.body.push(s[0]) + s.skip(1).take(taken - 1) =~= m.body + s.take(taken));
        }
    }
}

/// Law: a declared length of N at most the maximum payload size yields a
/// body of exactly the first N bytes supplied after the header section, and
/// the parser is done as soon as N bytes have arrived.
pub proof fn lemma_body_exact(m: AbsParser, s: Seq<u8>, n: int)
    requires
        m.state == State::Content,
        m.body.len() == 0,
        m.content == Some(n),
        0 < n <= MAX_CONTENT_SIZE,
        s.len() >= n,
    ensures
        feed(m, s).state == State::Done,
        feed(m, s).body == s.take(n),
{
    lemma_content_fill(m, s);
    assert(Seq::<u8>::empty() + s.take(n) =~= s.take(n));
}

/// Law: a declared length beyond the maximum payload size yields a body
/// truncated to exactly the cap.
pub proof fn lemma_body_truncated(m: AbsParser, s: Seq<u8>, n: int)
    requires
        m.state == State::Content,
        m.body.len() == 0,
        m.content == Some(n),
        n > MAX_CONTENT_SIZE,
        s.len() >= MAX_CONTENT_SIZE,
    ensures
        feed(m, s).state == State::Done,
        feed(m, s).body == s.take(MAX_CONTENT_SIZE as int),
        feed(m, s).body.len() == MAX_CONTENT_SIZE,
{
    lemma_content_fill(m, s);
    assert(Seq::<u8>::empty() + s.take(MAX_CONTENT_SIZE as int) =~= s.take(
        MAX_CONTENT_SIZE as int,
    ));
}

proof fn lemma_accum_method(m: AbsParser, s: Seq<u8>)
    requires
        m.state == State::Method,
        forall|i: int| 0 <= i < s.len() ==> s[i] != 32,
    ensures
        feed(m, s) == (AbsParser { acc: m.acc + s, ..m }),
    decreases s.len(),
{
    if s.len() == 0 {
        assert(m.acc + s =~= m.acc);
        assert((AbsParser { acc: m.acc + s, ..m }) =~= m);
    } else {
        let m2 = step(m, s[0]);
        lemma_accum_method(m2, s.skip(1));
        assert(m.acc.push(s[0]) + s.skip(1) =~= m.acc + s);
        assert((AbsParser { acc: m.acc + s, ..m }) =~= (AbsParser {
            acc: m2.acc + s.skip(1),
            ..m2
        }));
    }
}

proof fn lemma_accum_path(m: AbsParser, s: Seq<u8>)
    requires
        m.state == State::Path,
        forall|i: int| 0 <= i < s.len() ==> s[i] != 32,
    ensures
        feed(m, s) == (AbsParser { acc: m.acc + s, ..m }),
    decreases s.len(),
{
    if s.len() == 0 {
        assert(m.acc + s =~= m.acc);
        assert((AbsParser { acc: m.acc + s, ..m }) =~= m);
    } else {
        let m2 = step(m, s[0]);
        lemma_accum_path(m2, s.skip(1));
        assert(m.acc.push(s[0]) + s.skip(1) =~= m.acc + s);
        assert((AbsParser { acc: m.acc + s, ..m }) =~= (AbsParser {
            acc: m2.acc + s.skip(1),
            ..m2
        }));
    }
}

proof fn lemma_accum_protocol(m: AbsParser, s: Seq<u8>)
    requires
        m.state == State::Protocol,
        forall|i: int| 0 <= i < s.len() ==> s[i] != 47,
    ensures
        feed(m, s) == (AbsParser { acc: m.acc + s, ..m }),
    decreases s.len(),
{
    if s.len() == 0 {
        assert(m.acc + s =~= m.acc);
        assert((AbsParser { acc: m.acc + s, ..m }) =~= m);
    } else {
        let m2 = step(m, s[0]);
        lemma_accum_protocol(m2, s.skip(1));
        assert(m.acc.push(s[0]) + s.skip(1) =~= m.acc + s);
        assert((AbsParser { acc: m.acc + s, ..m }) =~= (AbsParser {
            acc: m2.acc + s.skip(1),
            ..m2
        }));
    }
}

proof fn lemma_accum_version(m: AbsParser, s: Seq<u8>)
    requires
        m.state == State::Version,
        forall|i: int| 0 <= i < s.len() ==> s[i] != 10 && s[i] != 13,
    ensures
        feed(m, s) == (AbsParser { acc: m.acc + s, ..m }),
    decreases s.len(),
{
    if s.len() == 0 {
        assert(m.acc + s =~= m.acc);
        assert((AbsParser { acc: m.acc + s, ..m }) =~= m);
    } else {
        let m2 = step(m, s[0]);
        lemma_accum_version(m2, s.skip(1));
        assert(m.acc.push(s[0]) + s.skip(1) =~= m.acc + s);
        assert((AbsParser { acc: m.acc + s, ..m }) =~= (AbsParser {
            acc: m2.acc + s.skip(1),
            ..m2
        }));
    }
}

proof fn lemma_accum_header(m: AbsParser, s: Seq<u8>)
    requires
        m.state == State::Header,
        forall|i: int| 0 <= i < s.len() ==> s[i] != 10 && s[i] != 13,
    ensures
        feed(m, s) == (AbsParser { acc: m.acc + s, ..m }),
    decreases s.len(),
{
    if s.len() == 0 {
        assert(m.acc + s =~= m.acc);
        assert((AbsParser { acc: m.acc + s, ..m }) =~= m);
    } else {
        let m2 = step(m, s[0]);
        lemma_accum_header(m2, s.skip(1));
        assert(m.acc.push(s[0]) + s.skip(1) =~= m.acc + s);
        assert((AbsParser { acc: m.acc + s, ..m }) =~= (AbsParser {
            acc: m2.acc + s.skip(1),
            ..m2
        }));
    }
}

/// Law (request-line correctness): from a fresh parser, a well-formed
/// request line — a method token and a path free of spaces, a protocol name
/// free of slashes, a version free of line breaks, with their delimiters —
/// settles exactly those components and leaves the parser collecting
/// headers, with nothing accumulated, no headers, no declared length and no
/// body.
pub proof fn lemma_request_line(mt: Seq<u8>, p: Seq<u8>, pr: Seq<u8>, v: Seq<u8>)
    requires
        forall|i: int| 0 <= i < mt.len() ==> mt[i] != 32,
        forall|i: int| 0 <= i < p.len() ==> p[i] != 32,
        forall|i: int| 0 <= i < pr.len() ==> pr[i] != 47,
        forall|i: int| 0 <= i < v.len() ==> v[i] != 10 && v[i] != 13,
    ensures
        ({
            let bytes = mt + seq![32u8] + p + seq![32u8] + pr + seq![47u8] + v + seq![10u8];
            let r = feed(init_parser(), bytes);
            &&& r.state == State::Header
            &&& r.method == spec_method_from(mt)
            &&& r.path == p
            &&& r.protocol == pr
            &&& r.version == v
            &&& r.acc.len() == 0
            &&& r.headers.len() == 0
            &&& r.content is None
            &&& r.body.len() == 0
        }),
{
    let m0 = init_parser();
    let rest1 = seq![32u8] + p + seq![32u8] + pr + seq![47u8] + v + seq![10u8];
    let bytes = mt + seq![32u8] + p + seq![32u8] + pr + seq![47u8] + v + seq![10u8];
    assert(bytes =~= mt + rest1);
    lemma_feed_split(m0, mt, rest1);
    lemma_accum_method(m0, mt);
    let m1 = feed(m0, mt);
    assert(m1.acc =~= mt);
    let m2 = step(m1, 32);
    assert(rest1 =~= seq![32u8] + (p + seq![32u8] + pr + seq![47u8] + v + seq![10u8]));
    let rest2 = p + seq![32u8] + pr + seq![47u8] + v + seq![10u8];
    assert(rest1[0] == 32);
    assert(rest1.skip(1) =~= rest2);
    assert(feed(m1, rest1) == feed(m2, rest2));
    assert(rest2 =~= p + (seq![32u8] + pr + seq![47u8] + v + seq![10u8]));
    lemma_feed_split(m2, p, seq![32u8] + pr + seq![47u8] + v + seq![10u8]);
    lemma_accum_path(m2, p);
    let m3 = feed(m2, p);
    assert(m3.acc =~= p);
    let m4 = step(m3, 32);
    let rest3 = pr + seq![47u8] + v + seq![10u8];
    assert((seq![32u8] + pr + seq![47u8] + v + seq![10u8])[0] == 32);
    assert((seq![32u8] + pr + seq![47u8] + v + seq![10u8]).skip(1) =~= rest3);
    assert(feed(m3, seq![32u8] + pr + seq![47u8] + v + seq![10u8]) == feed(m4, rest3));
    assert(rest3 =~= pr + (seq![47u8] + v + seq![10u8]));
    lemma_feed_split(m4, pr, seq![47u8] + v + seq![10u8]);
    lemma_accum_protocol(m4, pr);
    let m5 = feed(m4, pr);
    assert(m5.acc =~= pr);
    let m6 = step(m5, 47);
    let rest4 = v + seq![10u8];
    assert((seq![47u8] + v + seq![10u8])[0] == 47);
    assert((seq![47u8] + v + seq![10u8]).skip(1) =~= rest4);
    assert(feed(m5, seq![47u8] + v + seq![10u8]) == feed(m6, rest4));
    lemma_feed_split(m6, v, seq![10u8]);
    lemma_accum_version(m6, v);
    let m7 = feed(m6, v);
    assert(m7.acc =~= v);
    let m8 = step(m7, 10);
    assert(seq![10u8][0] == 10);
    assert(seq![10u8].skip(1) =~= Seq::<u8>::empty());
    assert(feed(m7, seq![10u8]) == feed(m8, Seq::<u8>::empty()));
    assert(feed(init_parser(), bytes) == m8);
}

/// Law (header-line correctness): while collecting headers with an empty
/// accumulator, a line `name: value` ending in a line feed — the name free
/// of colons, the line free of line breaks — stores the trimmed value under
/// the name (last write winning) and leaves the accumulator empty again. The
/// rest of the parser is untouched.
pub proof fn lemma_header_line(m: AbsParser, name: Seq<u8>, value: Seq<u8>)
    requires
        m.state == State::Header,
        m.acc.len() == 0,
        forall|i: int| 0 <= i < name.len() ==> name[i] != 58 && name[i] != 10 && name[i] != 13,
        forall|i: int| 0 <= i < value.len() ==> value[i] != 10 && value[i] != 13,
        name.len() > 0,
    ensures
        ({
            let bytes = name + seq![58u8] + value + seq![10u8];
            let r = feed(m, bytes);
            &&& r.state == State::Header
            &&& r.acc.len() == 0
            &&& r.headers == assoc_insert(m.headers, name, crate::bytes::spec_trim(value))
            &&& (name == "Content-Length".spec_bytes() && spec_parse_usize(value) is Some
                ==> r.content == Some(spec_parse_usize(value)->Some_0))
            &&& (name != "Content-Length".spec_bytes() ==> r.content == m.content)
            &&& r.body == m.body
            &&& r.method == m.method
            &&& r.path == m.path
            &&& r.protocol == m.protocol
            &&& r.version == m.version
        }),
{
    let line = name + seq![58u8] + value;
    let bytes = name + seq![58u8] + value + seq![10u8];
    assert(bytes =~= line + seq![10u8]);
    lemma_feed_split(m, line, seq![10u8]);
    assert forall|i: int| 0 <= i < line.len() implies line[i] != 10 && line[i] != 13 by {
        if i < name.len() {
            assert(line[i] == name[i]);
        } else if i == name.len() {
            assert(line[i] == 58);
        } else {
            assert(line[i] == value[i - name.len() - 1]);
        }
    }
    lemma_accum_header(m, line);
    let m1 = feed(m, line);
    assert(m1.acc =~= line);
    let m2 = step(m1, 10);
    assert(seq![10u8][0] == 10);
    assert(seq![10u8].skip(1) =~= Seq::<u8>::empty());
    assert(feed(m1, seq![10u8]) == feed(m2, Seq::<u8>::empty()));
    assert(m1.acc.len() > 0);
    // the first colon sits right after the name
    assert forall|j: int| 0 <= j < name.len() implies line[j] != 58 by {
        assert(line[j] == name[j]);
    }
    assert(line[name.len() as int] == 58);
    lemma_find_in_line(line, name.len() as int);
    assert(line.take(name.len() as int) =~= name);
    assert(line.skip(name.len() as int + 1) =~= value);
}

/// A header line the wire can carry between line feeds: nonempty and free of
/// line breaks. Carriage returns are ignored by the parser, so a CRLF-ended
/// section reduces to these bare-LF lines.
pub open spec fn line_wf(line: Seq<u8>) -> bool {
    &&& line.len() > 0
    &&& forall|j: int| 0 <= j < line.len() ==> line[j] != 10 && line[j] != 13
}

/// A well-formed header section: any number of well-formed lines.
pub open spec fn wf_lines(lines: Seq<Seq<u8>>) -> bool {
    forall|i: int| 0 <= i < lines.len() ==> line_wf(#[trigger] lines[i])
}

/// The wire bytes of a header section: each line followed by a line feed.
pub open spec fn section_bytes(lines: Seq<Seq<u8>>) -> Seq<u8>
    decreases lines.len(),
{
    if lines.len() == 0 {
        Seq::empty()
    } else {
        lines[0] + seq![10u8] + section_bytes(lines.skip(1))
    }
}

/// The (name, trimmed value) pair a header line denotes, or nothing for a
/// line without a colon.
pub open spec fn line_entry(line: Seq<u8>) -> Option<(Seq<u8>, Seq<u8>)> {
    match spec_find(line, 58) {
        Some(c) => Some((line.take(c), spec_trim(line.skip(c + 1)))),
        None => None,
    }
}

/// The header mapping after a section, starting from `hs0`: each line's pair
/// inserted in order, the last write under a name winning.
pub open spec fn section_headers(
    hs0: Seq<(Seq<u8>, Seq<u8>)>,
    lines: Seq<Seq<u8>>,
) -> Seq<(Seq<u8>, Seq<u8>)>
    decreases lines.len(),
{
    if lines.len() == 0 {
        hs0
    } else {
        let hs1 = match line_entry(lines[0]) {
            Some(kv) => assoc_insert(hs0, kv.0, kv.1),
            None => hs0,
        };
        section_headers(hs1, lines.skip(1))
    }
}

/// The declared body length after a section, starting from `c0`: the last
/// Content-Length line whose trimmed value parses sets it; others leave it.
pub open spec fn section_content(c0: Option<int>, lines: Seq<Seq<u8>>) -> Option<int>
    decreases lines.len(),
{
    if lines.len() == 0 {
        c0
    } else {
        let c1 = match line_entry(lines[0]) {
            Some(kv) => if kv.0 == "Content-Length".spec_bytes() && spec_parse_usize(kv.1)
                is Some {
                Some(spec_parse_usize(kv.1)->Some_0)
            } else {
                c0
            },
            None => c0,
        };
        section_content(c1, lines.skip(1))
    }
}

proof fn lemma_feed_section(m: AbsParser, lines: Seq<Seq<u8>>)
    requires
        m.state == State::Header,
        m.acc.len() == 0,
        wf_lines(lines),
    ensures
        ({
            let r = feed(m, section_bytes(lines));
            &&& r.state == State::Header
            &&& r.acc.len() == 0
            &&& r.headers == section_headers(m.headers, lines)
            &&& r.content == section_content(m.content, lines)
            &&& r.body == m.body
            &&& r.method == m.method
            &&& r.path == m.path
            &&& r.protocol == m.protocol
            &&& r.version == m.version
        }),
    decreases lines.len(),
{
    if lines.len() == 0 {
        assert(feed(m, section_bytes(lines)) == m);
    } else {
        let line = lines[0];
        assert(line_wf(line));
        assert(section_bytes(lines) =~= line + (seq![10u8] + section_bytes(lines.skip(1))));
        lemma_feed_split(m, line, seq![10u8] + section_bytes(lines.skip(1)));
        lemma_accum_header(m, line);
        let m1 = feed(m, line);
        assert(m1.acc =~= line);
        lemma_feed_split(m1, seq![10u8], section_bytes(lines.skip(1)));
        let m2 = step(m1, 10);
        assert(seq![10u8][0] == 10);
        assert(seq![10u8].skip(1) =~= Seq::<u8>::empty());
        assert(feed(m1, seq![10u8]) == feed(m2, Seq::<u8>::empty()));
        assert(m1.acc.len() > 0);
        assert(m2 == process_header_line(m1));
        assert(wf_lines(lines.skip(1)));
        lemma_feed_section(m2, lines.skip(1));
    }
}

/// Law (whole-message correctness, general): a well-formed request — a
/// request line, any header section, the blank line, then whatever bytes
/// follow — parses from a fresh parser to exactly its components. The
/// declared length is the last Content-Length line whose value parses, or
/// none; the effective length caps it at the maximum payload size; the
/// retained body is exactly the first effective-length bytes that follow the
/// blank line, and the message is complete exactly when that many have
/// arrived. With no recognized length the message completes on the blank
/// line itself with an empty body; a declared length over the cap truncates
/// the body to exactly the cap. Chunk boundaries cannot change any of this
/// (`lemma_chunking_irrelevant`).
pub proof fn lemma_whole_message(
    mt: Seq<u8>,
    p: Seq<u8>,
    pr: Seq<u8>,
    v: Seq<u8>,
    lines: Seq<Seq<u8>>,
    supplied: Seq<u8>,
)
    requires
        forall|i: int| 0 <= i < mt.len() ==> mt[i] != 32,
        forall|i: int| 0 <= i < p.len() ==> p[i] != 32,
        forall|i: int| 0 <= i < pr.len() ==> pr[i] != 47,
        forall|i: int| 0 <= i < v.len() ==> v[i] != 10 && v[i] != 13,
        wf_lines(lines),
    ensures
        ({
            let bytes = mt + seq![32u8] + p + seq![32u8] + pr + seq![47u8] + v + seq![10u8]
                + section_bytes(lines) + seq![10u8] + supplied;
            let r = feed(init_parser(), bytes);
            let c = section_content(None, lines);
            let eff = effective_len(c);
            let taken = if supplied.len() <= eff {
                supplied.len() as int
            } else {
                eff
            };
            &&& (r.state == State::Done <==> supplied.len() >= eff)
            &&& r.body == supplied.take(taken)
            &&& r.content == c
            &&& r.headers == section_headers(Seq::empty(), lines)
            &&& r.method == spec_method_from(mt)
            &&& r.path == p
            &&& r.protocol == pr
            &&& r.version == v
        }),
{
    let rl = mt + seq![32u8] + p + seq![32u8] + pr + seq![47u8] + v + seq![10u8];
    let bytes = mt + seq![32u8] + p + seq![32u8] + pr + seq![47u8] + v + seq![10u8]
        + section_bytes(lines) + seq![10u8] + supplied;
    assert(bytes =~= rl + (section_bytes(lines) + (seq![10u8] + supplied)));

    // the request line settles the first four fields
    lemma_feed_split(init_parser(), rl, section_bytes(lines) + (seq![10u8] + supplied));
    lemma_request_line(mt, p, pr, v);
    let m1 = feed(init_parser(), rl);
    assert(m1.headers =~= Seq::<(Seq<u8>, Seq<u8>)>::empty());

    // the header section settles the mapping and the declared length
    lemma_feed_split(m1, section_bytes(lines), seq![10u8] + supplied);
    lemma_feed_section(m1, lines);
    let m2 = feed(m1, section_bytes(lines));
    let c = section_content(None, lines);
    assert(m2.content == c);

    // a declared length is never negative: it came from a parsed value
    lemma_feed_preserves_wf(init_parser(), rl + section_bytes(lines));
    assert(rl + section_bytes(lines) =~= rl + section_bytes(lines));
    lemma_feed_split(init_parser(), rl, section_bytes(lines));
    assert(abs_wf(m2));
    let eff = effective_len(c);
    assert(eff >= 0);

    // the blank line opens the content phase, or ends the message outright
    lemma_feed_split(m2, seq![10u8], supplied);
    let m3 = step(m2, 10);
    assert(seq![10u8][0] == 10);
    assert(seq![10u8].skip(1) =~= Seq::<u8>::empty());
    assert(feed(m2, seq![10u8]) == feed(m3, Seq::<u8>::empty()));
    if eff == 0 {
        assert(m3.state == State::Done);
        lemma_done_absorbing(m3, supplied);
        assert(supplied.take(0) =~= Seq::<u8>::empty());
        assert(m3.body =~= supplied.take(0));
    } else {
        assert(m3.state == State::Content);
        assert(m3.body.len() == 0);
        lemma_content_fill(m3, supplied);
        let taken = if supplied.len() <= eff {
            supplied.len() as int
        } else {
            eff
        };
        assert(feed(m3, supplied).body =~= supplied.take(taken));
    }
}

/// Law: a request whose header section declares no recognizable
/// Content-Length — no line names it, or none of its values parses as an
/// unsigned integer — completes on the blank line that ends the headers,
/// with an empty body; no body bytes are awaited.
pub proof fn lemma_no_length_completes_at_blank_line(
    mt: Seq<u8>,
    p: Seq<u8>,
    pr: Seq<u8>,
    v: Seq<u8>,
    lines: Seq<Seq<u8>>,
)
    requires
        forall|i: int| 0 <= i < mt.len() ==> mt[i] != 32,
        forall|i: int| 0 <= i < p.len() ==> p[i] != 32,
        forall|i: int| 0 <= i < pr.len() ==> pr[i] != 47,
        forall|i: int| 0 <= i < v.len() ==> v[i] != 10 && v[i] != 13,
        wf_lines(lines),
        section_content(None, lines) is None,
    ensures
        ({
            let bytes = mt + seq![32u8] + p + seq![32u8] + pr + seq![47u8] + v + seq![10u8]
                + section_bytes(lines) + seq![10u8];
            let r = feed(init_parser(), bytes);
            &&& r.state == State::Done
            &&& r.body.len() == 0
        }),
{
    lemma_whole_message(mt, p, pr, v, lines, Seq::empty());
    assert(mt + seq![32u8] + p + seq![32u8] + pr + seq![47u8] + v + seq![10u8]
        + section_bytes(lines) + seq![10u8] + Seq::<u8>::empty() =~= mt + seq![32u8] + p
        + seq![32u8] + pr + seq![47u8] + v + seq![10u8] + section_bytes(lines) + seq![10u8]);
}

/// Law: a declared length N at most the maximum payload size: the message is
/// complete exactly when N body bytes have arrived after the blank line, and
/// the retained body is exactly those N bytes in order.
pub proof fn lemma_declared_length_message(
    mt: Seq<u8>,
    p: Seq<u8>,
    pr: Seq<u8>,
    v: Seq<u8>,
    lines: Seq<Seq<u8>>,
    supplied: Seq<u8>,
    n: int,
)
    requires
        forall|i: int| 0 <= i < mt.len() ==> mt[i] != 32,
        forall|i: int| 0 <= i < p.len() ==> p[i] != 32,
        forall|i: int| 0 <= i < pr.len() ==> pr[i] != 47,
        forall|i: int| 0 <= i < v.len() ==> v[i] != 10 && v[i] != 13,
        wf_lines(lines),
        section_content(None, lines) == Some(n),
        0 <= n <= MAX_CONTENT_SIZE,
    ensures
        ({
            let bytes = mt + seq![32u8] + p + seq![32u8] + pr + seq![47u8] + v + seq![10u8]
                + section_bytes(lines) + seq![10u8] + supplied;
            let r = feed(init_parser(), bytes);
            &&& (r.state == State::Done <==> supplied.len() >= n)
            &&& (supplied.len() >= n ==> r.body == supplied.take(n))
        }),
{
    lemma_whole_message(mt, p, pr, v, lines, supplied);
}

/// Law: a declared length over the maximum payload size: the message is
/// complete exactly when the cap's worth of body bytes has arrived, the
/// retained body is exactly the first cap-many bytes, and the excess is
/// discarded silently — no error is surfaced.
pub proof fn lemma_oversized_length_message(
    mt: Seq<u8>,
    p: Seq<u8>,
    pr: Seq<u8>,
    v: Seq<u8>,
    lines: Seq<Seq<u8>>,
    supplied: Seq<u8>,
    n: int,
)
    requires
        forall|i: int| 0 <= i < mt.len() ==> mt[i] != 32,
        forall|i: int| 0 <= i < p.len() ==> p[i] != 32,
        forall|i: int| 0 <= i < pr.len() ==> pr[i] != 47,
        forall|i: int| 0 <= i < v.len() ==> v[i] != 10 && v[i] != 13,
        wf_lines(lines),
        section_content(None, lines) == Some(n),
        n > MAX_CONTENT_SIZE,
    ensures
        ({
            let bytes = mt + seq![32u8] + p + seq![32u8] + pr + seq![47u8] + v + seq![10u8]
                + section_bytes(lines) + seq![10u8] + supplied;
            let r = feed(init_parser(), bytes);
            &&& (r.state == State::Done <==> supplied.len() >= MAX_CONTENT_SIZE)
            &&& (supplied.len() >= MAX_CONTENT_SIZE ==> r.body == supplied.take(
                MAX_CONTENT_SIZE as int,
            ) && r.body.len() == MAX_CONTENT_SIZE)
        }),
{
    lemma_whole_message(mt, p, pr, v, lines, supplied);
}

/// Law (whole-message correctness): a complete well-formed request — a
/// request line, one Content-Length header declaring `body.len()`, the blank
/// line, then the body — parses from a fresh parser to `Done` with exactly
/// its components: the resolved method, the verbatim path, protocol name and
/// version, the one header, the declared length, and the body bytes.
pub proof fn lemma_whole_request(
    mt: Seq<u8>,
    p: Seq<u8>,
    pr: Seq<u8>,
    v: Seq<u8>,
    body: Seq<u8>,
)
    requires
        forall|i: int| 0 <= i < mt.len() ==> mt[i] != 32,
        forall|i: int| 0 <= i < p.len() ==> p[i] != 32,
        forall|i: int| 0 <= i < pr.len() ==> pr[i] != 47,
        forall|i: int| 0 <= i < v.len() ==> v[i] != 10 && v[i] != 13,
        0 < body.len() <= MAX_CONTENT_SIZE,
    ensures
        ({
            let cl = "Content-Length".spec_bytes();
            let n = body.len() as int;
            let bytes = mt + seq![32u8] + p + seq![32u8] + pr + seq![47u8] + v + seq![10u8] + cl
                + seq![58u8] + spec_dec(n) + seq![10u8] + seq![10u8] + body;
            let r = feed(init_parser(), bytes);
            &&& r.state == State::Done
            &&& r.method == spec_method_from(mt)
            &&& r.path == p
            &&& r.protocol == pr
            &&& r.version == v
            &&& r.headers == Seq::<(Seq<u8>, Seq<u8>)>::empty().push((cl, spec_dec(n)))
            &&& r.content == Some(n)
            &&& r.body == body
        }),
{
    let cl = "Content-Length".spec_bytes();
    let n = body.len() as int;
    let rl = mt + seq![32u8] + p + seq![32u8] + pr + seq![47u8] + v + seq![10u8];
    let hl = cl + seq![58u8] + spec_dec(n) + seq![10u8];
    let bytes = mt + seq![32u8] + p + seq![32u8] + pr + seq![47u8] + v + seq![10u8] + cl
        + seq![58u8] + spec_dec(n) + seq![10u8] + seq![10u8] + body;
    assert(bytes =~= rl + (hl + (seq![10u8] + body)));

    // the request line settles the first four fields
    lemma_feed_split(init_parser(), rl, hl + (seq![10u8] + body));
    lemma_request_line(mt, p, pr, v);
    let m1 = feed(init_parser(), rl);

    // the bytes of the header name, revealed to apply the header-line law
    reveal_strlit("Content-Length");
    vstd::string::is_ascii_spec_bytes("Content-Length");
    assert(vstd::string::is_ascii("Content-Length"));
    assert(cl.len() == 14);
    assert forall|i: int| 0 <= i < cl.len() implies cl[i] != 58 && cl[i] != 10 && cl[i]
        != 13 by {
        assert(cl[i] == ("Content-Length"@[i] as u8));
    }

    // the declared length in decimal: digit bytes only, so line-break free,
    // whitespace free at both ends, and parsing it yields the length back
    crate::bytes::lemma_spec_dec_digits(n);
    assert forall|i: int| 0 <= i < spec_dec(n).len() implies spec_dec(n)[i] != 10 && spec_dec(
        n,
    )[i] != 13 by {
        assert(crate::bytes::is_digit(spec_dec(n)[i]));
    }
    assert(crate::bytes::is_digit(spec_dec(n)[0]));
    assert(crate::bytes::is_digit(spec_dec(n).last()));

    // the header line records the declared length
    lemma_feed_split(m1, hl, seq![10u8] + body);
    lemma_header_line(m1, cl, spec_dec(n));
    crate::bytes::lemma_trim_id(spec_dec(n));
    crate::bytes::lemma_dec_round_trip(body.len() as usize);
    let m2 = feed(m1, hl);
    assert(m2.headers == assoc_insert(m1.headers, cl, spec_dec(n)));
    assert(m1.headers.len() == 0);
    assert(m1.headers =~= Seq::<(Seq<u8>, Seq<u8>)>::empty());
    assert(m2.content == Some(n));

    // the blank line opens the content phase, which the body bytes fill
    lemma_feed_split(m2, seq![10u8], body);
    let m3 = step(m2, 10);
    assert(seq![10u8][0] == 10);
    assert(seq![10u8].skip(1) =~= Seq::<u8>::empty());
    assert(feed(m2, seq![10u8]) == feed(m3, Seq::<u8>::empty()));
    assert(effective_len(m2.content) == n);
    assert(m3.state == State::Content);
    lemma_content_fill(m3, body);
    assert(feed(m3, body).body =~= body);
}

proof fn lemma_find_in_line(s: Seq<u8>, i: int)
    requires
        0 <= i < s.len(),
        s[i] == 58,
        forall|j: int| 0 <= j < i ==> s[j] != 58,
    ensures
        spec_find(s, 58) == Some(i),
    decreases i,
{
    if i > 0 {
        lemma_find_in_line(s.skip(1), i - 1);
    }
}

/// The incremental parser: feed it byte chunks with `parse` until it
/// reports completion, then read the structured request off `request`.
#[derive(Debug)]
pub struct Parser {
    state: State,
    acc: Vec<u8>,
    content: Option<usize>,
    body: Vec<u8>,
    pub request: HttpRequest,
}

impl View for Parser {
    type V = AbsParser;

    closed spec fn view(&self) -> AbsParser {
        AbsParser {
            state: self.state,
            acc: self.acc@,
            method: self.request.method@,
            path: self.request.path@,
            protocol: self.request.protocol@,
            version: self.request.version@,
            headers: self.request.headers@,
            content: match self.content {
                Some(n) => Some(n as int),
                None => None,
            },
            body: self.body@,
        }
    }
}

impl Parser {
    /// The header mapping under construction keeps its names distinct.
    pub open spec fn wf(&self) -> bool {
        unique_keys(self@.headers)
    }

    /// A fresh parser, ready for the first byte of a request line.
    pub fn new() -> (p: Parser)
        ensures
            p@ == init_parser(),
            p.wf(),
    {
        let p = Parser {
            state: State::Method,
            acc: Vec::new(),
            content: None,
            body: Vec::new(),
            request: HttpRequest {
                method: Method::Unset,
                path: Vec::new(),
                protocol: Vec::new(),
                version: Vec::new(),
                headers: Headers::new(),
            },
        };
        proof {
            assert(p@ =~= init_parser());
        }
        p
    }

    /// The structured request built so far; settled once the parser is done.
    pub fn request(&self) -> (r: &HttpRequest)
        ensures
            r.method@ == self@.method,
            r.path@ == self@.path,
            r.protocol@ == self@.protocol,
            r.version@ == self@.version,
            r.headers@ == self@.headers,
    {
        &self.request
    }

    /// The body bytes retained so far.
    pub fn body(&self) -> (b: &Vec<u8>)
        ensures
            b@ == self@.body,
    {
        &self.body
    }

    /// Whether the parser has completed a message.
    pub fn done(&self) -> (d: bool)
        ensures
            d == (self@.state == State::Done),
    {
        self.state == State::Done
    }

    /// The effective body length owed right now.
    fn effective(&self) -> (e: usize)
        ensures
            e as int == effective_len(self@.content),
    {
        match self.content {
            Some(n) => if n > MAX_CONTENT_SIZE {
                MAX_CONTENT_SIZE
            } else {
                n
            },
            None => 0,
        }
    }

    /// Consumes one completed header line sitting in the accumulator.
    fn process_line(&mut self)
        requires
            old(self).wf(),
        ensures
            final(self)@ == process_header_line(old(self)@),
            final(self).wf(),
    {
        let n = self.acc.len();
        match find_byte(&self.acc, 58) {
            Some(c) => {
                let hname = sub_vec(&self.acc, 0, c);
                let raw = sub_vec(&self.acc, c + 1, n);
                let value = trim(&raw);
                proof {
                    assert(hname@ =~= self@.acc.take(c as int));
                    assert(raw@ =~= self@.acc.skip(c + 1));
                }
                if slice_eq(hname.as_slice(), "Content-Length".as_bytes()) {
                    match parse_usize(value.as_slice()) {
                        Some(n) => {
                            self.content = Some(n);
                        },
                        None => {},
                    }
                }
                self.request.headers.insert(hname, value);
                self.acc.clear();
                proof {
                    assert(final(self)@ =~= process_header_line(old(self)@));
                }
            },
            None => {
                self.acc.clear();
                proof {
                    assert(final(self)@ =~= process_header_line(old(self)@));
                }
            },
        }
    }

    /// The transition on one byte; realizes `step` exactly.
    fn step_byte(&mut self, b: u8)
        requires
            old(self).wf(),
        ensures
            final(self)@ == step(old(self)@, b),
            final(self).wf(),
    {
        match self.state {
            State::Method => {
                if b == 32 {
                    self.request.method = Method::from_bytes(self.acc.as_slice());
                    self.acc.clear();
                    self.state = State::Path;
                } else {
                    self.acc.push(b);
                }
            },
            State::Path => {
                if b == 32 {
                    let mut tmp: Vec<u8> = Vec::new();
                    swap(&mut tmp, &mut self.acc);
                    self.request.path = tmp;
                    self.state = State::Protocol;
                } else {
                    self.acc.push(b);
                }
            },
            State::Protocol => {
                if b == 47 {
                    let mut tmp: Vec<u8> = Vec::new();
                    swap(&mut tmp, &mut self.acc);
                    self.request.protocol = tmp;
                    self.state = State::Version;
                } else {
                    self.acc.push(b);
                }
            },
            State::Version => {
                if b == 10 {
                    let mut tmp: Vec<u8> = Vec::new();
                    swap(&mut tmp, &mut self.acc);
                    self.request.version = tmp;
                    self.state = State::Header;
                } else if b == 13 {
                } else {
                    self.acc.push(b);
                }
            },
            State::Header => {
                if b == 10 {
                    if self.acc.len() == 0 {
                        if self.effective() == 0 {
                            self.state = State::Done;
                        } else {
                            self.state = State::Content;
                        }
                    } else {
                        self.process_line();
                    }
                } else if b == 13 {
                } else {
                    self.acc.push(b);
                }
            },
            State::Content => {
                self.body.push(b);
                if self.body.len() >= self.effective() {
                    self.state = State::Done;
                }
            },
            State::Done => {},
        }
        proof {
            assert(final(self)@ =~= step(old(self)@, b));
        }
    }

    /// Feeds one chunk. Processes as many states as the available bytes
    /// allow in one pass and reports whether the message completed. Calling
    /// this on a parser that is already done is a caller contract violation,
    /// excluded here; `done` tells the caller when to stop.
    pub fn parse(&mut self, bytes: &[u8]) -> (complete: bool)
        requires
            old(self)@.state != State::Done,
            old(self).wf(),
        ensures
            final(self)@ == feed(old(self)@, bytes@),
            final(self).wf(),
            complete == (final(self)@.state == State::Done),
    {
        let ghost m0 = self@;
        let mut i: usize = 0;
        while i < bytes.len()
            invariant
                i <= bytes@.len(),
                self@ == feed(m0, bytes@.take(i as int)),
                self.wf(),
            decreases bytes@.len() - i,
        {
            proof {
                lemma_feed_snoc(m0, bytes@.take(i as int), bytes@[i as int]);
                assert(bytes@.take(i as int).push(bytes@[i as int]) =~= bytes@.take(i + 1));
            }
            let b = bytes[i];
            self.step_byte(b);
            i = i + 1;
        }
        proof {
            assert(bytes@.take(bytes@.len() as int) =~= bytes@);
        }
        self.done()
    }
}

} // verus!
