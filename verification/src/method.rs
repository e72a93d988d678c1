//! The HTTP request method: a closed set of known tokens plus an open-ended
//! custom token, kept verbatim as the bytes that appeared on the wire.

use vstd::prelude::*;
use vstd::slice::slice_to_vec;
use vstd::string::StringSliceAdditionalSpecFns;
use crate::bytes::slice_eq;

verus! {

/// A request method. `Custom` carries an unknown token verbatim; `Unset` is
/// the placeholder of a parser that has not finished the method field yet.
#[derive(Debug)]
pub enum Method {
    Get,
    Post,
    Head,
    Put,
    Delete,
    Connect,
    Options,
    Trace,
    Patch,
    Custom(Vec<u8>),
    Unset,
}

/// The mathematical shape of a `Method`: the custom token as a byte sequence.
pub enum MethodView {
    Get,
    Post,
    Head,
    Put,
    Delete,
    Connect,
    Options,
    Trace,
    Patch,
    Custom(Seq<u8>),
    Unset,
}

impl View for Method {
    type V = MethodView;

    open spec fn view(&self) -> MethodView {
        match self {
            Method::Get => MethodView::Get,
            Method::Post => MethodView::Post,
            Method::Head => MethodView::Head,
            Method::Put => MethodView::Put,
            Method::Delete => MethodView::Delete,
            Method::Connect => MethodView::Connect,
            Method::Options => MethodView::Options,
            Method::Trace => MethodView::Trace,
            Method::Patch => MethodView::Patch,
            Method::Custom(s) => MethodView::Custom(s@),
            Method::Unset => MethodView::Unset,
        }
    }
}

/// The canonical wire token of a method; a custom token is itself, and the
/// unset placeholder serializes to nothing.
pub open spec fn spec_method_name(m: MethodView) -> Seq<u8> {
    match m {
        MethodView::Get => "GET".spec_bytes(),
        MethodView::Post => "POST".spec_bytes(),
        MethodView::Head => "HEAD".spec_bytes(),
        MethodView::Put => "PUT".spec_bytes(),
        MethodView::Delete => "DELETE".spec_bytes(),
        MethodView::Connect => "CONNECT".spec_bytes(),
        MethodView::Options => "OPTIONS".spec_bytes(),
        MethodView::Trace => "TRACE".spec_bytes(),
        MethodView::Patch => "PATCH".spec_bytes(),
        MethodView::Custom(s) => s,
        MethodView::Unset => Seq::empty(),
    }
}

/// Resolving a wire token against the known set; anything else is custom,
/// kept verbatim.
pub open spec fn spec_method_from(s: Seq<u8>) -> MethodView {
    if s == "GET".spec_bytes() {
        MethodView::Get
    } else if s == "POST".spec_bytes() {
        MethodView::Post
    } else if s == "HEAD".spec_bytes() {
        MethodView::Head
    } else if s == "PUT".spec_bytes() {
        MethodView::Put
    } else if s == "DELETE".spec_bytes() {
        MethodView::Delete
    } else if s == "CONNECT".spec_bytes() {
        MethodView::Connect
    } else if s == "OPTIONS".spec_bytes() {
        MethodView::Options
    } else if s == "TRACE".spec_bytes() {
        MethodView::Trace
    } else if s == "PATCH".spec_bytes() {
        MethodView::Patch
    } else {
        MethodView::Custom(s)
    }
}

/// Law: serializing a resolved method token yields exactly the bytes that
/// were resolved; every known token maps to its canonical variant and every
/// unknown token round-trips verbatim as a custom method.
pub proof fn lemma_method_round_trip(s: Seq<u8>)
    ensures
        spec_method_name(spec_method_from(s)) == s,
{
}

impl Method {
    /// Resolves a wire token, given as raw bytes, against the known set.
    pub fn from_bytes(name: &[u8]) -> (m: Method)
        ensures
            m@ == spec_method_from(name@),
    {
        if slice_eq(name, "GET".as_bytes()) {
            Method::Get
        } else if slice_eq(name, "POST".as_bytes()) {
            Method::Post
        } else if slice_eq(name, "HEAD".as_bytes()) {
            Method::Head
        } else if slice_eq(name, "PUT".as_bytes()) {
            Method::Put
        } else if slice_eq(name, "DELETE".as_bytes()) {
            Method::Delete
        } else if slice_eq(name, "CONNECT".as_bytes()) {
            Method::Connect
        } else if slice_eq(name, "OPTIONS".as_bytes()) {
            Method::Options
        } else if slice_eq(name, "TRACE".as_bytes()) {
            Method::Trace
        } else if slice_eq(name, "PATCH".as_bytes()) {
            Method::Patch
        } else {
            Method::Custom(slice_to_vec(name))
        }
    }

    /// Resolves a method token given as a string.
    pub fn parse(method: &str) -> (m: Method)
        ensures
            m@ == spec_method_from(method.spec_bytes()),
    {
        Method::from_bytes(method.as_bytes())
    }

    /// The canonical wire token of this method.
    pub fn stringify(&self) -> (r: &[u8])
        ensures
            r@ == spec_method_name(self@),
    {
        match self {
            Method::Get => "GET".as_bytes(),
            Method::Post => "POST".as_bytes(),
            Method::Head => "HEAD".as_bytes(),
            Method::Put => "PUT".as_bytes(),
            Method::Delete => "DELETE".as_bytes(),
            Method::Connect => "CONNECT".as_bytes(),
            Method::Options => "OPTIONS".as_bytes(),
            Method::Trace => "TRACE".as_bytes(),
            Method::Patch => "PATCH".as_bytes(),
            Method::Custom(s) => s.as_slice(),
            Method::Unset => {
                let r = "".as_bytes();
                proof {
                    reveal_strlit("");
                    vstd::string::is_ascii_spec_bytes("");
                    assert(r@ =~= Seq::<u8>::empty());
                }
                r
            },
        }
    }

    /// Copies this method.
    pub fn duplicate(&self) -> (m: Method)
        ensures
            m@ == self@,
    {
        match self {
            Method::Get => Method::Get,
            Method::Post => Method::Post,
            Method::Head => Method::Head,
            Method::Put => Method::Put,
            Method::Delete => Method::Delete,
            Method::Connect => Method::Connect,
            Method::Options => Method::Options,
            Method::Trace => Method::Trace,
            Method::Patch => Method::Patch,
            Method::Custom(s) => Method::Custom(slice_to_vec(s.as_slice())),
            Method::Unset => Method::Unset,
        }
    }
}

impl PartialEq for Method {
    /// Two methods are equal when their views are: same variant, and for
    /// custom tokens the same bytes.
    fn eq(&self, other: &Method) -> (r: bool) {
        match (self, other) {
            (Method::Get, Method::Get) => true,
            (Method::Post, Method::Post) => true,
            (Method::Head, Method::Head) => true,
            (Method::Put, Method::Put) => true,
            (Method::Delete, Method::Delete) => true,
            (Method::Connect, Method::Connect) => true,
            (Method::Options, Method::Options) => true,
            (Method::Trace, Method::Trace) => true,
            (Method::Patch, Method::Patch) => true,
            (Method::Custom(a), Method::Custom(b)) => slice_eq(a.as_slice(), b.as_slice()),
            (Method::Unset, Method::Unset) => true,
            _ => false,
        }
    }
}

impl vstd::std_specs::cmp::PartialEqSpecImpl for Method {
    open spec fn obeys_eq_spec() -> bool {
        true
    }

    open spec fn eq_spec(&self, other: &Method) -> bool {
        self@ == other@
    }
}

} // verus!
