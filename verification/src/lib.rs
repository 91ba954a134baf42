//! A verified parser that turns a textual `curl`-style command line into a
//! structured HTTP request description.
//!
//! The pipeline has two stages: a grammar engine that tokenizes the input
//! into typed fragments (method, url, header, body, auth, ...), and a
//! reducer that folds the fragment stream into a [`ParsedRequest`],
//! followed by a normalization pass (URL scheme defaulting, default
//! headers, method upgrade).
//!
//! URLs are kept as plain strings; a schemeless URL is prefixed with
//! `http://`, and when no path follows the authority the canonical `/` is
//! inserted — before the query if one follows, else at the end — so the
//! rendered form matches what a validated-URI representation would print.
use vstd::prelude::*;

pub mod encode;
pub mod error;
pub mod grammar;
pub mod headers;
pub mod laws;
pub mod method;
pub mod parser;
pub mod template;
pub mod text;

pub use error::Error;
pub use grammar::CurlParser;
pub use grammar::Fragment;
pub use headers::HeaderMap;
pub use method::Method;
pub use template::TemplateContext;

verus! {

/// Spec-level image of a [`ParsedRequest`]: the method token, the
/// normalized URL text, the header mapping, the body fragments in source
/// order, and the TLS-verification flag.
pub struct SpecRequest {
    pub method: Seq<char>,
    pub url: Seq<char>,
    pub headers: Map<Seq<char>, Seq<char>>,
    pub body: Seq<Seq<char>>,
    pub insecure: bool,
}

/// A structured HTTP request description parsed from curl-syntax text.
///
/// Created empty, filled fragment by fragment during reduction, normalized
/// once, and immutable thereafter.
#[derive(Debug, Clone)]
pub struct ParsedRequest {
    /// The HTTP method; `GET` unless set explicitly or upgraded to `POST`.
    pub method: Method,
    /// The destination, kept as a plain string.  A schemeless URL has been
    /// prefixed with `http://`, and a URL with no path after its authority
    /// carries the canonical `/` before any query.
    pub url: String,
    /// Header names map to single values; names are stored lowercase.
    pub headers: HeaderMap,
    /// One entry per body-producing flag, in source order.
    pub body: Vec<String>,
    /// Whether a TLS-verification-disabling flag was present.
    pub insecure: bool,
}

impl View for ParsedRequest {
    type V = SpecRequest;

    open spec fn view(&self) -> SpecRequest {
        SpecRequest {
            method: self.method@,
            url: self.url@,
            headers: self.headers@,
            body: self.body.deep_view(),
            insecure: self.insecure,
        }
    }
}

/// The empty request every reduction starts from.
pub open spec fn default_request() -> SpecRequest {
    SpecRequest {
        method: method::method_get(),
        url: Seq::empty(),
        headers: Map::empty(),
        body: Seq::empty(),
        insecure: false,
    }
}

impl ParsedRequest {
    /// Validity of the parts with internal invariants.
    pub open spec fn wf(self) -> bool {
        self.headers.wf() && self.method.wf()
    }
}

impl Default for ParsedRequest {
    /// An empty `GET` request with no URL, headers or body.
    fn default() -> (r: Self)
        ensures
            r@ == default_request(),
            r.wf(),
    {
        let r = ParsedRequest {
            method: Method::get(),
            url: String::new(),
            headers: HeaderMap::new(),
            body: Vec::new(),
            insecure: false,
        };
        proof {
            assert(r.body.deep_view() =~= Seq::<Seq<char>>::empty());
            assert(r@ == default_request());
        }
        r
    }
}

} // verus!
