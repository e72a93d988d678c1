//! The routing table and its dispatch policy. Handlers live with the
//! embedding program, which registers each one under a small integer id;
//! dispatch resolves a request to the id of the handler to invoke. Pattern
//! routes carry an arbitrary path predicate, so the caller evaluates every
//! pattern's predicate against the path and passes the outcomes in.
//!
//! Policy: an exact route wins outright; otherwise the first registered
//! pattern whose method matches and whose predicate accepted the path wins;
//! the default fires only when nothing else matched.

use vstd::prelude::*;
use crate::bytes::slice_eq;
use crate::method::{Method, MethodView};

verus! {

/// The mathematical shape of a routing table: exact routes as
/// (method, path, handler id), pattern routes as (method, handler id) in
/// registration order, and an optional default handler id.
#[verifier::ext_equal]
pub struct RouterView {
    pub exact: Seq<(MethodView, Seq<u8>, int)>,
    pub patterns: Seq<(MethodView, int)>,
    pub fallback: Option<int>,
}

/// The position of the first exact route for (m, p).
pub open spec fn route_idx(rs: Seq<(MethodView, Seq<u8>, int)>, m: MethodView, p: Seq<u8>) -> Option<
    int,
>
    decreases rs.len(),
{
    if rs.len() == 0 {
        None
    } else if rs[0].0 == m && rs[0].1 == p {
        Some(0int)
    } else {
        match route_idx(rs.skip(1), m, p) {
            Some(i) => Some(i + 1),
            None => None,
        }
    }
}

/// The position of the first pattern route whose method matches and whose
/// predicate accepted the path.
pub open spec fn first_hit(ps: Seq<(MethodView, int)>, m: MethodView, hits: Seq<bool>) -> Option<
    int,
>
    decreases ps.len(),
{
    if ps.len() == 0 || hits.len() == 0 {
        None
    } else if ps[0].0 == m && hits[0] {
        Some(0int)
    } else {
        match first_hit(ps.skip(1), m, hits.skip(1)) {
            Some(i) => Some(i + 1),
            None => None,
        }
    }
}

/// The dispatch policy: exact match first, then the first accepting pattern
/// with the right method, then the default if one is registered.
pub open spec fn spec_dispatch(
    rv: RouterView,
    m: MethodView,
    p: Seq<u8>,
    hits: Seq<bool>,
) -> Option<int> {
    match route_idx(rv.exact, m, p) {
        Some(i) => Some(rv.exact[i].2),
        None => match first_hit(rv.patterns, m, hits) {
            Some(j) => Some(rv.patterns[j].1),
            None => rv.fallback,
        },
    }
}

/// No two exact routes share a (method, path) key.
pub open spec fn unique_routes(rs: Seq<(MethodView, Seq<u8>, int)>) -> bool {
    forall|i: int, j: int|
        0 <= i < j < rs.len() ==> !(rs[i].0 == rs[j].0 && rs[i].1 == rs[j].1)
}

proof fn lemma_route_idx_at(rs: Seq<(MethodView, Seq<u8>, int)>, m: MethodView, p: Seq<u8>, i: int)
    requires
        0 <= i < rs.len(),
        rs[i].0 == m && rs[i].1 == p,
        forall|j: int| 0 <= j < i ==> !(rs[j].0 == m && rs[j].1 == p),
    ensures
        route_idx(rs, m, p) == Some(i),
    decreases i,
{
    if i > 0 {
        lemma_route_idx_at(rs.skip(1), m, p, i - 1);
    }
}

proof fn lemma_route_idx_absent(rs: Seq<(MethodView, Seq<u8>, int)>, m: MethodView, p: Seq<u8>)
    requires
        forall|j: int| 0 <= j < rs.len() ==> !(rs[j].0 == m && rs[j].1 == p),
    ensures
        route_idx(rs, m, p) is None,
    decreases rs.len(),
{
    if rs.len() > 0 {
        lemma_route_idx_absent(rs.skip(1), m, p);
    }
}

proof fn lemma_first_hit_at(ps: Seq<(MethodView, int)>, m: MethodView, hits: Seq<bool>, i: int)
    requires
        ps.len() == hits.len(),
        0 <= i < ps.len(),
        ps[i].0 == m && hits[i],
        forall|j: int| 0 <= j < i ==> !(ps[j].0 == m && hits[j]),
    ensures
        first_hit(ps, m, hits) == Some(i),
    decreases i,
{
    if i > 0 {
        lemma_first_hit_at(ps.skip(1), m, hits.skip(1), i - 1);
    }
}

proof fn lemma_first_hit_absent(ps: Seq<(MethodView, int)>, m: MethodView, hits: Seq<bool>)
    requires
        ps.len() == hits.len(),
        forall|j: int| 0 <= j < ps.len() ==> !(ps[j].0 == m && hits[j]),
    ensures
        first_hit(ps, m, hits) is None,
    decreases ps.len(),
{
    if ps.len() > 0 {
        lemma_first_hit_absent(ps.skip(1), m, hits.skip(1));
    }
}

/// Law: an exact route always wins. Whatever patterns are registered and
/// whether or not a default exists, dispatching a (method, path) for which
/// an exact route is registered returns that route's handler.
pub proof fn lemma_exact_route_wins(
    rv: RouterView,
    m: MethodView,
    p: Seq<u8>,
    hits: Seq<bool>,
    i: int,
)
    requires
        unique_routes(rv.exact),
        0 <= i < rv.exact.len(),
        rv.exact[i].0 == m && rv.exact[i].1 == p,
    ensures
        spec_dispatch(rv, m, p, hits) == Some(rv.exact[i].2),
{
    lemma_route_idx_at(rv.exact, m, p, i);
}

/// Law: with no exact route and no accepting pattern, the default handler
/// is dispatched; without a default, nothing resolves.
pub proof fn lemma_default_is_fallback(rv: RouterView, m: MethodView, p: Seq<u8>, hits: Seq<bool>)
    requires
        rv.patterns.len() == hits.len(),
        forall|j: int| 0 <= j < rv.exact.len() ==> !(rv.exact[j].0 == m && rv.exact[j].1 == p),
        forall|j: int| 0 <= j < rv.patterns.len() ==> !(rv.patterns[j].0 == m && hits[j]),
    ensures
        spec_dispatch(rv, m, p, hits) == rv.fallback,
{
    lemma_route_idx_absent(rv.exact, m, p);
    lemma_first_hit_absent(rv.patterns, m, hits);
}

/// The routing table. Written once at startup, read-only afterwards.
#[derive(Debug)]
pub struct Router {
    exact: Vec<(Method, Vec<u8>, usize)>,
    patterns: Vec<(Method, usize)>,
    fallback: Option<usize>,
}

impl View for Router {
    type V = RouterView;

    closed spec fn view(&self) -> RouterView {
        RouterView {
            exact: Seq::new(
                self.exact@.len(),
                |i: int| (self.exact@[i].0@, self.exact@[i].1@, self.exact@[i].2 as int),
            ),
            patterns: Seq::new(
                self.patterns@.len(),
                |i: int| (self.patterns@[i].0@, self.patterns@[i].1 as int),
            ),
            fallback: match self.fallback {
                Some(h) => Some(h as int),
                None => None,
            },
        }
    }
}

impl Router {
    /// Exact routes keep pairwise-distinct (method, path) keys.
    pub open spec fn wf(&self) -> bool {
        unique_routes(self@.exact)
    }

    /// An empty table: no routes, no default.
    pub fn new() -> (r: Router)
        ensures
            r@.exact.len() == 0,
            r@.patterns.len() == 0,
            r@.fallback is None,
            r.wf(),
    {
        let r = Router { exact: Vec::new(), patterns: Vec::new(), fallback: None };
        proof {
            assert(r@.exact =~= Seq::<(MethodView, Seq<u8>, int)>::empty());
            assert(r@.patterns =~= Seq::<(MethodView, int)>::empty());
        }
        r
    }

    /// Registers `handler` for exact matches of (method, route);
    /// re-registering the same key replaces the previous handler.
    pub fn register_handler(&mut self, method: Method, route: Vec<u8>, handler: usize)
        requires
            old(self).wf(),
        ensures
            final(self).wf(),
            final(self)@.patterns == old(self)@.patterns,
            final(self)@.fallback == old(self)@.fallback,
            final(self)@.exact == (match route_idx(old(self)@.exact, method@, route@) {
                Some(i) => old(self)@.exact.remove(i).push((method@, route@, handler as int)),
                None => old(self)@.exact.push((method@, route@, handler as int)),
            }),
    {
        let ghost rs0 = self@.exact;
        let mut i: usize = 0;
        let mut found = false;
        while i < self.exact.len()
            invariant_except_break
                !found,
            invariant
                self@ == old(self)@,
                i <= self@.exact.len(),
                self@.exact.len() == self.exact@.len(),
                forall|j: int|
                    0 <= j < i ==> !(self@.exact[j].0 == method@ && self@.exact[j].1 == route@),
            ensures
                self@ == old(self)@,
                i <= self@.exact.len(),
                self@.exact.len() == self.exact@.len(),
                found ==> i < self@.exact.len() && self@.exact[i as int].0 == method@
                    && self@.exact[i as int].1 == route@,
                forall|j: int|
                    0 <= j < i ==> !(self@.exact[j].0 == method@ && self@.exact[j].1 == route@),
                !found ==> i == self@.exact.len(),
            decreases self@.exact.len() - i,
        {
            let entry = &self.exact[i];
            if entry.0 == method && slice_eq(entry.1.as_slice(), route.as_slice()) {
                found = true;
                break ;
            }
            i = i + 1;
        }
        if found {
            proof {
                lemma_route_idx_at(rs0, method@, route@, i as int);
            }
            self.exact.remove(i);
            proof {
                assert(self@.exact =~= rs0.remove(i as int));
            }
        } else {
            proof {
                lemma_route_idx_absent(rs0, method@, route@);
            }
        }
        let ghost mid = self@.exact;
        self.exact.push((method, route, handler));
        proof {
            assert(self@.exact =~= mid.push(
                (self.exact@[self.exact@.len() - 1].0@, self.exact@[self.exact@.len() - 1].1@, handler as int),
            ));
            let new = self@.exact;
            assert forall|a: int, b: int|
                0 <= a < b < new.len() implies !(new[a].0 == new[b].0 && new[a].1 == new[b].1) by {
                if b < new.len() - 1 {
                    if found {
                        if i as int <= a {
                            assert(new[a] == rs0[a + 1]);
                        }
                        if i as int <= b {
                            assert(new[b] == rs0[b + 1]);
                        }
                    }
                } else {
                    if found {
                        if a < i as int {
                            assert(new[a] == rs0[a]);
                        } else {
                            assert(new[a] == rs0[a + 1]);
                        }
                    }
                }
            }
        }
    }

    /// Appends a pattern route: `handler` will serve requests whose method
    /// matches and whose path the caller-side predicate of this pattern
    /// accepts, when no exact route matched first.
    pub fn register_matching_handler(&mut self, method: Method, handler: usize)
        requires
            old(self).wf(),
        ensures
            final(self).wf(),
            final(self)@.exact == old(self)@.exact,
            final(self)@.fallback == old(self)@.fallback,
            final(self)@.patterns == old(self)@.patterns.push((method@, handler as int)),
    {
        self.patterns.push((method, handler));
        proof {
            assert(self@.patterns =~= old(self)@.patterns.push((method@, handler as int)));
            assert(self@.exact =~= old(self)@.exact);
        }
    }

    /// Sets the fallback invoked when neither exact nor pattern matching
    /// resolves a request.
    pub fn register_default(&mut self, handler: usize)
        requires
            old(self).wf(),
        ensures
            final(self).wf(),
            final(self)@.exact == old(self)@.exact,
            final(self)@.patterns == old(self)@.patterns,
            final(self)@.fallback == Some(handler as int),
    {
        self.fallback = Some(handler);
        proof {
            assert(self@.exact =~= old(self)@.exact);
            assert(self@.patterns =~= old(self)@.patterns);
        }
    }

    /// How many pattern routes are registered; the caller passes `dispatch`
    /// one predicate outcome per pattern, in this order.
    pub fn pattern_count(&self) -> (n: usize)
        ensures
            n == self@.patterns.len(),
    {
        self.patterns.len()
    }

    /// Whether a default handler is registered. A table without one can
    /// leave a request unresolved, which is a configuration error to catch
    /// at startup.
    pub fn has_default(&self) -> (b: bool)
        ensures
            b == (self@.fallback is Some),
    {
        match self.fallback {
            Some(_) => true,
            None => false,
        }
    }

    /// Resolves a request to the id of the handler to invoke, or `None` when
    /// nothing matches and no default is registered. `hits[i]` must say
    /// whether pattern `i`'s predicate accepts the path.
    pub fn dispatch(&self, method: &Method, path: &[u8], hits: &[bool]) -> (r: Option<usize>)
        requires
            self.wf(),
            hits@.len() == self@.patterns.len(),
        ensures
            match r {
                Some(h) => spec_dispatch(self@, method@, path@, hits@) == Some(h as int),
                None => spec_dispatch(self@, method@, path@, hits@) is None,
            },
    {
        let mut i: usize = 0;
        while i < self.exact.len()
            invariant
                i <= self@.exact.len(),
                self@.exact.len() == self.exact@.len(),
                forall|j: int|
                    0 <= j < self@.exact.len() ==> self@.exact[j] == (
                    self.exact@[j].0@,
                    self.exact@[j].1@,
                    self.exact@[j].2 as int,
                    ),
                forall|j: int|
                    0 <= j < i ==> !(self@.exact[j].0 == method@ && self@.exact[j].1 == path@),
            decreases self@.exact.len() - i,
        {
            let entry = &self.exact[i];
            if entry.0 == *method && slice_eq(entry.1.as_slice(), path) {
                proof {
                    lemma_route_idx_at(self@.exact, method@, path@, i as int);
                }
                return Some(entry.2);
            }
            i = i + 1;
        }
        proof {
            lemma_route_idx_absent(self@.exact, method@, path@);
        }
        let mut k: usize = 0;
        while k < self.patterns.len()
            invariant
                k <= self@.patterns.len(),
                self@.patterns.len() == self.patterns@.len(),
                hits@.len() == self@.patterns.len(),
                route_idx(self@.exact, method@, path@) is None,
                forall|j: int|
                    0 <= j < self@.patterns.len() ==> self@.patterns[j] == (
                    self.patterns@[j].0@,
                    self.patterns@[j].1 as int,
                    ),
                forall|j: int| 0 <= j < k ==> !(self@.patterns[j].0 == method@ && hits@[j]),
            decreases self@.patterns.len() - k,
        {
            let entry = &self.patterns[k];
            if entry.0 == *method && hits[k] {
                proof {
                    lemma_first_hit_at(self@.patterns, method@, hits@, k as int);
                }
                return Some(entry.1);
            }
            k = k + 1;
        }
        proof {
            lemma_first_hit_absent(self@.patterns, method@, hits@);
        }
        self.fallback
    }
}

} // verus!
