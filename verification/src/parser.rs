//! The fragment reducer, the normalizer, and the entry points: `parse`,
//! `load`, and the body encoder.
use vstd::prelude::*;
use crate::ParsedRequest;
use crate::SpecRequest;
use crate::encode::{base64_of, base64_encode, form_encoded_of, form_encode};
use crate::error::{Error, SpecError};
use crate::grammar::{CurlParser, Fragment, SpecFragment, frags_view, spec_tokenize};
use crate::headers::{HeaderMap, valid_header_name, valid_header_value};
use crate::method::{Method, method_get, method_post, valid_method};
use crate::template::{TemplateContext, render_of, render_ok, render_text};
use crate::text::{
    spec_find, spec_remove_quote, spec_trim, spec_unescape, lower_seq, has_scheme, spec_scheme_sep,
};

verus! {

/// The header name every `-u` flag writes.
pub open spec fn authorization_key() -> Seq<char> {
    seq!['a', 'u', 't', 'h', 'o', 'r', 'i', 'z', 'a', 't', 'i', 'o', 'n']
}

/// The header name the body-dependent default is keyed under.
pub open spec fn content_type_key() -> Seq<char> {
    seq!['c', 'o', 'n', 't', 'e', 'n', 't', '-', 't', 'y', 'p', 'e']
}

/// The header name the catch-all default is keyed under.
pub open spec fn accept_key() -> Seq<char> {
    seq!['a', 'c', 'c', 'e', 'p', 't']
}

/// The default Accept value.
pub open spec fn accept_any() -> Seq<char> {
    seq!['*', '/', '*']
}

/// The prefix of every basic-auth Authorization value.
pub open spec fn basic_prefix() -> Seq<char> {
    seq!['B', 'a', 's', 'i', 'c', ' ']
}

/// The scheme prefixed to a schemeless URL.
pub open spec fn http_prefix() -> Seq<char> {
    seq!['h', 't', 't', 'p', ':', '/', '/']
}

/// The Content-Type under which body fragments are form-encoded.
pub open spec fn form_content_type() -> Seq<char> {
    "application/x-www-form-urlencoded"@
}

/// The Content-Type under which only the last body fragment survives.
pub open spec fn json_content_type() -> Seq<char> {
    "application/json"@
}

/// How the destination was set: a positional token still subject to scheme
/// defaulting, or an explicit `-L` target taken verbatim.
pub enum SpecUrl {
    Positional(Seq<char>),
    Located(Seq<char>),
}

/// The reduction accumulator: what the fragments seen so far have set.
pub struct SpecAcc {
    /// The explicit method token, if a method flag was seen.
    pub method: Option<Seq<char>>,
    /// The last URL-setting fragment, if any.
    pub url: Option<SpecUrl>,
    /// The headers written so far, keyed by lowercased name.
    pub headers: Map<Seq<char>, Seq<char>>,
    /// The body fragments in source order.
    pub body: Seq<Seq<char>>,
    /// Whether an insecure flag was seen.
    pub insecure: bool,
}

/// The accumulator every reduction starts from.
pub open spec fn empty_acc() -> SpecAcc {
    SpecAcc {
        method: None,
        url: None,
        headers: Map::empty(),
        body: Seq::empty(),
        insecure: false,
    }
}

/// One header fragment applied to the accumulator: split on the first
/// colon, trim both sides, unescape the value, validate, and insert under
/// the lowercased name.
pub open spec fn spec_header_step(acc: SpecAcc, t: Seq<char>) -> Result<SpecAcc, SpecError> {
    match spec_find(t, 0, ':') {
        None => Err(SpecError::Grammar),
        Some(ci) => {
            let name_raw = spec_trim(t.take(ci));
            let value = spec_unescape(spec_trim(t.skip(ci + 1)));
            if !valid_header_name(name_raw) {
                Err(SpecError::InvalidHeaderName(name_raw))
            } else if !valid_header_value(value) {
                Err(SpecError::InvalidHeaderValue(value))
            } else {
                Ok(
                    SpecAcc {
                        headers: acc.headers.insert(lower_seq(name_raw), value),
                        method: acc.method,
                        url: acc.url,
                        body: acc.body,
                        insecure: acc.insecure,
                    },
                )
            }
        },
    }
}

/// One fragment applied to the accumulator.
pub open spec fn spec_step(acc: SpecAcc, f: SpecFragment) -> Result<SpecAcc, SpecError> {
    match f {
        SpecFragment::Method(t) => {
            let tok = spec_remove_quote(t);
            if valid_method(tok) {
                Ok(
                    SpecAcc {
                        method: Some(tok),
                        url: acc.url,
                        headers: acc.headers,
                        body: acc.body,
                        insecure: acc.insecure,
                    },
                )
            } else {
                Err(SpecError::InvalidMethod(tok))
            }
        },
        SpecFragment::Url(t) => Ok(
            SpecAcc {
                url: Some(SpecUrl::Positional(t)),
                method: acc.method,
                headers: acc.headers,
                body: acc.body,
                insecure: acc.insecure,
            },
        ),
        SpecFragment::Location(t) => Ok(
            SpecAcc {
                url: Some(SpecUrl::Located(t)),
                method: acc.method,
                headers: acc.headers,
                body: acc.body,
                insecure: acc.insecure,
            },
        ),
        SpecFragment::Header(t) => spec_header_step(acc, t),
        SpecFragment::Auth(t) => Ok(
            SpecAcc {
                headers: acc.headers.insert(authorization_key(), basic_prefix() + base64_of(t)),
                method: acc.method,
                url: acc.url,
                body: acc.body,
                insecure: acc.insecure,
            },
        ),
        SpecFragment::Body(t) => Ok(
            SpecAcc {
                body: acc.body.push(spec_remove_quote(spec_trim(t))),
                method: acc.method,
                url: acc.url,
                headers: acc.headers,
                insecure: acc.insecure,
            },
        ),
        SpecFragment::InsecureFlag => Ok(
            SpecAcc {
                insecure: true,
                method: acc.method,
                url: acc.url,
                headers: acc.headers,
                body: acc.body,
            },
        ),
        SpecFragment::EndOfInput => Ok(acc),
    }
}

/// Folds the fragments into the accumulator, stopping at the first
/// end-of-input fragment or error.
pub open spec fn spec_reduce_from(acc: SpecAcc, fs: Seq<SpecFragment>) -> Result<
    SpecAcc,
    SpecError,
>
    decreases fs.len(),
{
    if fs.len() == 0 {
        Ok(acc)
    } else {
        match fs[0] {
            SpecFragment::EndOfInput => Ok(acc),
            _ => match spec_step(acc, fs[0]) {
                Ok(a2) => spec_reduce_from(a2, fs.drop_first()),
                Err(e) => Err(e),
            },
        }
    }
}

/// The whole reduction, from the empty accumulator.
pub open spec fn spec_reduce(fs: Seq<SpecFragment>) -> Result<SpecAcc, SpecError> {
    spec_reduce_from(empty_acc(), fs)
}

/// Scheme defaulting for a positional URL: prefix `http://` when no
/// scheme separator is present; then, when no `/` begins a path after the
/// authority, insert the canonical `/` — before the query if one follows,
/// else at the end — to match what a validated-URI rendering prints.
pub open spec fn normalize_positional(t: Seq<char>) -> Seq<char> {
    let full = if has_scheme(t) {
        t
    } else {
        http_prefix() + t
    };
    match spec_scheme_sep(full, 0) {
        Some(k) => {
            let slash = spec_find(full, k + 3, '/');
            let query = spec_find(full, k + 3, '?');
            if slash is Some && (query is None || slash->Some_0 < query->Some_0) {
                full
            } else {
                match query {
                    Some(q) => full.take(q) + seq!['/'] + full.skip(q),
                    None => full + seq!['/'],
                }
            }
        },
        None => full,
    }
}

/// The final URL text: empty when nothing set one, a located URL
/// verbatim, a positional URL normalized.
pub open spec fn spec_url_of(u: Option<SpecUrl>) -> Seq<char> {
    match u {
        None => Seq::empty(),
        Some(SpecUrl::Located(t)) => t,
        Some(SpecUrl::Positional(t)) => normalize_positional(t),
    }
}

/// The normalization pass: URL scheme defaulting, the Content-Type
/// default when a body is present, the Accept default, and the method
/// upgrade to POST when a body is present and no method was given.
pub open spec fn spec_normalize(acc: SpecAcc) -> SpecRequest {
    let h1 = if acc.body.len() > 0 && !acc.headers.contains_key(content_type_key()) {
        acc.headers.insert(content_type_key(), form_content_type())
    } else {
        acc.headers
    };
    let h2 = if !h1.contains_key(accept_key()) {
        h1.insert(accept_key(), accept_any())
    } else {
        h1
    };
    let m = match acc.method {
        Some(t) => t,
        None => if acc.body.len() > 0 {
            method_post()
        } else {
            method_get()
        },
    };
    SpecRequest {
        method: m,
        url: spec_url_of(acc.url),
        headers: h2,
        body: acc.body,
        insecure: acc.insecure,
    }
}

/// The whole pipeline on already-rendered text: tokenize, reduce,
/// normalize.
pub open spec fn spec_parse(s: Seq<char>) -> Result<SpecRequest, SpecError> {
    match spec_tokenize(s) {
        Err(e) => Err(e),
        Ok(fs) => match spec_reduce(fs) {
            Err(e) => Err(e),
            Ok(acc) => Ok(spec_normalize(acc)),
        },
    }
}

/// One body fragment as a form pair: split on the first `=` (no `=` makes
/// the whole fragment the key with an empty value), strip one layer of
/// quotes from key and value independently, percent-encode both.
pub open spec fn spec_pair_encode(item: Seq<char>) -> Seq<char> {
    match spec_find(item, 0, '=') {
        Some(e) => form_encoded_of(spec_remove_quote(item.take(e))) + seq!['='] + form_encoded_of(
            spec_remove_quote(item.skip(e + 1)),
        ),
        None => form_encoded_of(spec_remove_quote(item)) + seq!['='],
    }
}

/// All body fragments as form pairs joined with `&`, in order.
pub open spec fn spec_form_encode(body: Seq<Seq<char>>) -> Seq<char>
    decreases body.len(),
{
    if body.len() == 0 {
        Seq::empty()
    } else if body.len() == 1 {
        spec_pair_encode(body[0])
    } else {
        spec_form_encode(body.drop_last()) + seq!['&'] + spec_pair_encode(body.last())
    }
}

/// What the body accessor yields: nothing without body fragments, the
/// form encoding under the form Content-Type, the last fragment verbatim
/// under the JSON Content-Type, and an error under any other.
pub open spec fn spec_body_result(r: SpecRequest) -> Result<Option<Seq<char>>, SpecError> {
    if r.body.len() == 0 {
        Ok(None)
    } else if !r.headers.contains_key(content_type_key()) {
        Err(SpecError::UnsupportedContentType(Seq::empty()))
    } else {
        let ct = r.headers[content_type_key()];
        if ct == form_content_type() {
            Ok(Some(spec_form_encode(r.body)))
        } else if ct == json_content_type() {
            Ok(Some(r.body.last()))
        } else {
            Err(SpecError::UnsupportedContentType(ct))
        }
    }
}

/// How the destination was set, carried between reduction and
/// normalization.
enum UrlVal {
    Positional(String),
    Located(String),
}

/// The executable reduction accumulator.
struct Acc {
    method: Option<Method>,
    url: Option<UrlVal>,
    headers: HeaderMap,
    body: Vec<String>,
    insecure: bool,
}

impl View for Acc {
    type V = SpecAcc;

    closed spec fn view(&self) -> SpecAcc {
        SpecAcc {
            method: match self.method {
                Some(m) => Some(m@),
                None => None,
            },
            url: match self.url {
                None => None,
                Some(UrlVal::Positional(s)) => Some(SpecUrl::Positional(s@)),
                Some(UrlVal::Located(s)) => Some(SpecUrl::Located(s@)),
            },
            headers: self.headers@,
            body: self.body.deep_view(),
            insecure: self.insecure,
        }
    }
}

impl Acc {
    /// The parts with internal invariants are valid.
    spec fn inv(self) -> bool {
        &&& self.headers.wf()
        &&& match self.method {
            Some(m) => m.wf(),
            None => true,
        }
    }

    fn new() -> (r: Acc)
        ensures
            r.inv(),
            r@ == empty_acc(),
    {
        let r = Acc {
            method: None,
            url: None,
            headers: HeaderMap::new(),
            body: Vec::new(),
            insecure: false,
        };
        proof {
            assert(r.body.deep_view() =~= Seq::<Seq<char>>::empty());
            assert(r@ == empty_acc());
        }
        r
    }
}

/// Builds the `authorization` key.
fn authorization_key_string() -> (r: String)
    ensures
        r@ == authorization_key(),
{
    let r = "authorization".to_owned();
    proof {
        reveal_strlit("authorization");
        assert(r@ =~= authorization_key());
    }
    r
}

/// Builds the `content-type` key.
fn content_type_key_string() -> (r: String)
    ensures
        r@ == content_type_key(),
{
    let r = "content-type".to_owned();
    proof {
        reveal_strlit("content-type");
        assert(r@ =~= content_type_key());
    }
    r
}

/// Builds the `accept` key.
fn accept_key_string() -> (r: String)
    ensures
        r@ == accept_key(),
{
    let r = "accept".to_owned();
    proof {
        reveal_strlit("accept");
        assert(r@ =~= accept_key());
    }
    r
}

/// Builds the default Accept value.
fn accept_any_string() -> (r: String)
    ensures
        r@ == accept_any(),
{
    let r = "*/*".to_owned();
    proof {
        reveal_strlit("*/*");
        assert(r@ =~= accept_any());
    }
    r
}

/// Builds the form Content-Type value.
fn form_content_type_string() -> (r: String)
    ensures
        r@ == form_content_type(),
{
    "application/x-www-form-urlencoded".to_owned()
}

/// Builds the JSON Content-Type value.
fn json_content_type_string() -> (r: String)
    ensures
        r@ == json_content_type(),
{
    "application/json".to_owned()
}

/// Applies one fragment to the accumulator, exactly as [`spec_step`]
/// says.
fn apply_fragment(acc: &mut Acc, f: &Fragment) -> (r: Result<(), Error>)
    requires
        old(acc).inv(),
    ensures
        match r {
            Ok(_) => final(acc).inv() && spec_step(old(acc)@, f@) == Ok::<SpecAcc, SpecError>(
                final(acc)@,
            ),
            Err(e) => spec_step(old(acc)@, f@) == Err::<SpecAcc, SpecError>(e@),
        },
{
    match f {
        Fragment::Method(s) => {
            let chars = crate::text::chars_vec(s.as_str());
            let tok = crate::text::remove_quote(&chars);
            match Method::from_chars(&tok) {
                Some(m) => {
                    acc.method = Some(m);
                    Ok(())
                },
                None => Err(
                    Error::InvalidMethod { token: crate::text::string_from_chars(&tok) },
                ),
            }
        },
        Fragment::Url(s) => {
            acc.url = Some(UrlVal::Positional(s.clone()));
            Ok(())
        },
        Fragment::Location(s) => {
            acc.url = Some(UrlVal::Located(s.clone()));
            Ok(())
        },
        Fragment::Header(s) => {
            let chars = crate::text::chars_vec(s.as_str());
            proof {
                assert(chars@.len() == chars.len());
            }
            match crate::text::find_char(&chars, 0, ':') {
                None => Err(Error::Grammar { message: "header without a colon".to_owned() }),
                Some(ci) => {
                    let head = crate::text::sub_vec(&chars, 0, ci);
                    proof {
                        assert(head@ =~= s@.take(ci as int));
                    }
                    let name_raw = crate::text::trim(&head);
                    let tail = crate::text::sub_vec(&chars, ci + 1, chars.len());
                    proof {
                        assert(tail@ =~= s@.skip(ci + 1));
                    }
                    let value = crate::text::unescape(&crate::text::trim(&tail));
                    if !crate::headers::check_header_name(&name_raw) {
                        return Err(
                            Error::InvalidHeaderName {
                                name: crate::text::string_from_chars(&name_raw),
                            },
                        );
                    }
                    if !crate::headers::check_header_value(&value) {
                        return Err(
                            Error::InvalidHeaderValue {
                                value: crate::text::string_from_chars(&value),
                            },
                        );
                    }
                    let key = crate::text::string_from_chars(
                        &crate::text::lower_chars(&name_raw),
                    );
                    acc.headers.insert(key, crate::text::string_from_chars(&value));
                    Ok(())
                },
            }
        },
        Fragment::Auth(s) => {
            let encoded = base64_encode(s.as_str());
            let mut vc: Vec<char> = Vec::new();
            vc.push('B');
            vc.push('a');
            vc.push('s');
            vc.push('i');
            vc.push('c');
            vc.push(' ');
            proof {
                assert(vc@ =~= basic_prefix());
            }
            let mut enc_chars = crate::text::chars_vec(encoded.as_str());
            vc.append(&mut enc_chars);
            let value = crate::text::string_from_chars(&vc);
            proof {
                assert(value@ == basic_prefix() + base64_of(s@));
            }
            acc.headers.insert(authorization_key_string(), value);
            Ok(())
        },
        Fragment::Body(s) => {
            let chars = crate::text::chars_vec(s.as_str());
            let processed = crate::text::remove_quote(&crate::text::trim(&chars));
            let ghost before = acc.body.deep_view();
            acc.body.push(crate::text::string_from_chars(&processed));
            proof {
                assert(acc.body.deep_view() =~= before.push(
                    spec_remove_quote(spec_trim(s@)),
                ));
            }
            Ok(())
        },
        Fragment::InsecureFlag => {
            acc.insecure = true;
            Ok(())
        },
        Fragment::EndOfInput => {
            Ok(())
        },
    }
}

/// Folds a fragment vector into an accumulator, exactly as
/// [`spec_reduce`] says.
fn reduce(frags: &Vec<Fragment>) -> (r: Result<Acc, Error>)
    ensures
        match r {
            Ok(a) => a.inv() && spec_reduce(frags_view(frags@)) == Ok::<SpecAcc, SpecError>(a@),
            Err(e) => spec_reduce(frags_view(frags@)) == Err::<SpecAcc, SpecError>(e@),
        },
{
    let mut acc = Acc::new();
    let ghost fv = frags_view(frags@);
    let mut k: usize = 0;
    proof {
        assert(fv.skip(0) =~= fv);
    }
    while k < frags.len()
        invariant
            k <= frags@.len(),
            fv == frags_view(frags@),
            fv.len() == frags@.len(),
            acc.inv(),
            spec_reduce(fv) == spec_reduce_from(acc@, fv.skip(k as int)),
        decreases frags@.len() - k,
    {
        let f = &frags[k];
        proof {
            assert(fv.skip(k as int)[0] == fv[k as int]);
            assert(fv[k as int] == frags@[k as int]@);
            assert(fv.skip(k as int).drop_first() =~= fv.skip(k as int + 1));
        }
        match f {
            Fragment::EndOfInput => {
                return Ok(acc);
            },
            _ => {
                match apply_fragment(&mut acc, f) {
                    Ok(_) => {},
                    Err(e) => {
                        return Err(e);
                    },
                }
            },
        }
        k += 1;
    }
    proof {
        assert(fv.skip(frags@.len() as int) =~= Seq::<SpecFragment>::empty());
    }
    Ok(acc)
}

/// Normalizes a positional URL, exactly as [`normalize_positional`] says.
fn normalize_positional_exec(s: &String) -> (r: String)
    ensures
        r@ == normalize_positional(s@),
{
    let chars = crate::text::chars_vec(s.as_str());
    let mut full: Vec<char>;
    match crate::text::scheme_sep(&chars) {
        Some(_) => {
            full = chars;
        },
        None => {
            full = Vec::new();
            full.push('h');
            full.push('t');
            full.push('t');
            full.push('p');
            full.push(':');
            full.push('/');
            full.push('/');
            proof {
                assert(full@ =~= http_prefix());
            }
            let mut rest = chars;
            full.append(&mut rest);
        },
    }
    proof {
        assert(full@ == if has_scheme(s@) {
            s@
        } else {
            http_prefix() + s@
        });
        assert(full@.len() == full.len());
    }
    match crate::text::scheme_sep(&full) {
        Some(k) => {
            let slash = crate::text::find_char(&full, k + 3, '/');
            let query = crate::text::find_char(&full, k + 3, '?');
            let has_path = match (slash, query) {
                (Some(_), None) => true,
                (Some(sl), Some(q)) => sl < q,
                (None, _) => false,
            };
            if !has_path {
                match query {
                    Some(q) => {
                        let ghost before = full@;
                        let mut r = crate::text::sub_vec(&full, 0, q);
                        r.push('/');
                        let mut tail = crate::text::sub_vec(&full, q, full.len());
                        r.append(&mut tail);
                        proof {
                            assert(r@ =~= before.take(q as int) + seq!['/'] + before.skip(
                                q as int,
                            ));
                        }
                        full = r;
                    },
                    None => {
                        let ghost before = full@;
                        full.push('/');
                        proof {
                            assert(full@ =~= before + seq!['/']);
                        }
                    },
                }
            }
        },
        None => {},
    }
    crate::text::string_from_chars(&full)
}

/// Builds the final request from the accumulator, exactly as
/// [`spec_normalize`] says.
fn normalize(acc: Acc) -> (r: ParsedRequest)
    requires
        acc.inv(),
    ensures
        r.wf(),
        r@ == spec_normalize(acc@),
{
    let Acc { method, url, mut headers, body, insecure } = acc;
    let url_string = match url {
        None => String::new(),
        Some(UrlVal::Located(s)) => s,
        Some(UrlVal::Positional(s)) => normalize_positional_exec(&s),
    };
    if body.len() > 0 {
        let ct_key = content_type_key_string();
        let absent = headers.get_exact(&ct_key).is_none();
        if absent {
            headers.insert(ct_key, form_content_type_string());
        }
    }
    let accept = accept_key_string();
    let absent = headers.get_exact(&accept).is_none();
    if absent {
        headers.insert(accept, accept_any_string());
    }
    let method_val = match method {
        Some(m) => m,
        None => {
            if body.len() > 0 {
                Method::post()
            } else {
                Method::get()
            }
        },
    };
    ParsedRequest { method: method_val, url: url_string, headers, body, insecure }
}

impl ParsedRequest {
    /// Parses curl-syntax text, with no templating: the result is exactly
    /// [`spec_parse`] of the input.
    pub fn parse(input: &str) -> (r: Result<ParsedRequest, Error>)
        ensures
            match r {
                Ok(p) => p.wf() && spec_parse(input@) == Ok::<SpecRequest, SpecError>(p@),
                Err(e) => spec_parse(input@) == Err::<SpecRequest, SpecError>(e@),
            },
    {
        let frags = match CurlParser::tokenize(input) {
            Ok(f) => f,
            Err(e) => {
                return Err(e);
            },
        };
        let acc = match reduce(&frags) {
            Ok(a) => a,
            Err(e) => {
                return Err(e);
            },
        };
        Ok(normalize(acc))
    }

    /// Renders the template against the context, then parses.  When
    /// rendering fails the result is the render error, before any
    /// tokenization; when rendering succeeds the result is exactly
    /// [`spec_parse`] of the rendered text — in particular, the call
    /// succeeds whenever rendering and parsing both do.
    pub fn load(input: &str, context: &TemplateContext) -> (r: Result<ParsedRequest, Error>)
        ensures
            render_ok(input@, context@) ==> match r {
                Ok(p) => p.wf() && spec_parse(render_of(input@, context@)) == Ok::<
                    SpecRequest,
                    SpecError,
                >(p@),
                Err(e) => spec_parse(render_of(input@, context@)) == Err::<
                    SpecRequest,
                    SpecError,
                >(e@),
            },
            !render_ok(input@, context@) ==> (r matches Err(e) && e@ == SpecError::Render),
    {
        let rendered = match render_text(input, context) {
            Ok(s) => s,
            Err(e) => {
                return Err(e);
            },
        };
        Self::parse(rendered.as_str())
    }

    /// Serializes the body on demand: the result is exactly
    /// [`spec_body_result`] of this request.
    pub fn body(&self) -> (r: Result<Option<String>, Error>)
        requires
            self.headers.wf(),
        ensures
            match r {
                Ok(op) => spec_body_result(self@) == Ok::<Option<Seq<char>>, SpecError>(
                    match op {
                        Some(s) => Some(s@),
                        None => None,
                    },
                ),
                Err(e) => spec_body_result(self@) == Err::<Option<Seq<char>>, SpecError>(e@),
            },
    {
        if self.body.len() == 0 {
            proof {
                assert(self.body.deep_view() =~= Seq::<Seq<char>>::empty());
            }
            return Ok(None);
        }
        proof {
            assert(self.body.deep_view().len() == self.body@.len());
        }
        let ct_key = content_type_key_string();
        let ct = match self.headers.get_exact(&ct_key) {
            Some(v) => v,
            None => {
                return Err(Error::UnsupportedContentType { content_type: String::new() });
            },
        };
        if ct.eq(&form_content_type_string()) {
            Ok(Some(self.form_urlencoded()))
        } else if ct.eq(&json_content_type_string()) {
            let last = self.body[self.body.len() - 1].clone();
            proof {
                assert(self.body.deep_view().last() == last@);
            }
            Ok(Some(last))
        } else {
            Err(Error::UnsupportedContentType { content_type: ct.clone() })
        }
    }

    /// Form-encodes the body fragments, exactly as [`spec_form_encode`]
    /// says.
    fn form_urlencoded(&self) -> (r: String)
        ensures
            r@ == spec_form_encode(self.body.deep_view()),
    {
        let ghost bv = self.body.deep_view();
        let mut out: Vec<char> = Vec::new();
        let mut i: usize = 0;
        proof {
            assert(bv.take(0) =~= Seq::<Seq<char>>::empty());
        }
        while i < self.body.len()
            invariant
                i <= self.body@.len(),
                bv == self.body.deep_view(),
                bv.len() == self.body@.len(),
                out@ == spec_form_encode(bv.take(i as int)),
            decreases self.body@.len() - i,
        {
            if i > 0 {
                out.push('&');
            }
            let item = crate::text::chars_vec(self.body[i].as_str());
            proof {
                assert(item@ == bv[i as int]);
            }
            let mut pair = encode_pair(&item);
            out.append(&mut pair);
            proof {
                assert(bv.take(i + 1).drop_last() =~= bv.take(i as int));
                assert(bv.take(i + 1).last() == bv[i as int]);
            }
            i += 1;
        }
        proof {
            assert(bv.take(bv.len() as int) =~= bv);
        }
        crate::text::string_from_chars(&out)
    }
}

/// Encodes one body fragment as a form pair, exactly as
/// [`spec_pair_encode`] says.
fn encode_pair(item: &Vec<char>) -> (r: Vec<char>)
    ensures
        r@ == spec_pair_encode(item@),
{
    proof {
        assert(item@.len() == item.len());
    }
    match crate::text::find_char(item, 0, '=') {
        Some(e) => {
            let key_part = crate::text::sub_vec(item, 0, e);
            proof {
                assert(key_part@ =~= item@.take(e as int));
            }
            let val_part = crate::text::sub_vec(item, e + 1, item.len());
            proof {
                assert(val_part@ =~= item@.skip(e + 1));
            }
            let key = crate::text::remove_quote(&key_part);
            let val = crate::text::remove_quote(&val_part);
            let ek = form_encode(crate::text::string_from_chars(&key).as_str());
            let ev = form_encode(crate::text::string_from_chars(&val).as_str());
            let mut r = crate::text::chars_vec(ek.as_str());
            r.push('=');
            let mut evc = crate::text::chars_vec(ev.as_str());
            r.append(&mut evc);
            proof {
                assert(r@ =~= spec_pair_encode(item@));
            }
            r
        },
        None => {
            let key = crate::text::remove_quote(item);
            let ek = form_encode(crate::text::string_from_chars(&key).as_str());
            let mut r = crate::text::chars_vec(ek.as_str());
            r.push('=');
            proof {
                assert(r@ =~= spec_pair_encode(item@));
            }
            r
        },
    }
}

impl core::str::FromStr for ParsedRequest {
    type Err = Error;

    /// Parsing with no templating, as [`ParsedRequest::parse`].
    fn from_str(s: &str) -> Result<ParsedRequest, Error> {
        ParsedRequest::parse(s)
    }
}

} // verus!
