//! The HTTP method of a request: a validated token such as `GET` or `PATCH`.
use vstd::prelude::*;

verus! {

/// The HTTP token character set: the characters allowed in a method token
/// and in a header name.
pub open spec fn is_tchar(c: char) -> bool {
    ('0' <= c && c <= '9') || ('a' <= c && c <= 'z') || ('A' <= c && c <= 'Z') || c == '!' || c
        == '#' || c == '$' || c == '%' || c == '&' || c == '\'' || c == '*' || c == '+' || c == '-'
        || c == '.' || c == '^' || c == '_' || c == '`' || c == '|' || c == '~'
}

/// Executable mirror of [`is_tchar`].
pub fn tchar(c: char) -> (r: bool)
    ensures
        r == is_tchar(c),
{
    ('0' <= c && c <= '9') || ('a' <= c && c <= 'z') || ('A' <= c && c <= 'Z') || c == '!' || c
        == '#' || c == '$' || c == '%' || c == '&' || c == '\'' || c == '*' || c == '+' || c == '-'
        || c == '.' || c == '^' || c == '_' || c == '`' || c == '|' || c == '~'
}

/// A non-empty sequence of HTTP token characters.
pub open spec fn valid_method(s: Seq<char>) -> bool {
    s.len() > 0 && forall|i: int| 0 <= i < s.len() ==> is_tchar(s[i])
}

/// The default method token.
pub open spec fn method_get() -> Seq<char> {
    seq!['G', 'E', 'T']
}

/// The method token a request with a body is upgraded to.
pub open spec fn method_post() -> Seq<char> {
    seq!['P', 'O', 'S', 'T']
}

/// An HTTP method: a non-empty token of HTTP token characters.
///
/// Standard methods are their uppercase names; any other valid token is an
/// extension method and is kept exactly as written.
#[derive(Debug, Clone)]
pub struct Method {
    token: String,
}

impl View for Method {
    type V = Seq<char>;

    closed spec fn view(&self) -> Seq<char> {
        self.token@
    }
}

impl Method {
    /// Every constructed method is a valid token.
    pub open spec fn wf(self) -> bool {
        valid_method(self@)
    }

    /// Validates a candidate token; `None` exactly when a character is
    /// outside the HTTP token set or the token is empty.
    pub fn from_chars(v: &Vec<char>) -> (r: Option<Method>)
        ensures
            match r {
                Some(m) => valid_method(v@) && m@ == v@,
                None => !valid_method(v@),
            },
    {
        if v.len() == 0 {
            return None;
        }
        let mut i: usize = 0;
        while i < v.len()
            invariant
                0 <= i <= v@.len(),
                forall|j: int| 0 <= j < i ==> is_tchar(v@[j]),
            decreases v.len() - i,
        {
            if !tchar(v[i]) {
                return None;
            }
            i += 1;
        }
        let mut token = String::new();
        let mut k: usize = 0;
        while k < v.len()
            invariant
                k <= v@.len(),
                token@ == v@.take(k as int),
            decreases v.len() - k,
        {
            crate::text::push_char(&mut token, v[k]);
            proof {
                assert(token@ =~= v@.take(k + 1));
            }
            k += 1;
        }
        proof {
            assert(token@ =~= v@);
        }
        Some(Method { token })
    }

    /// The `GET` method.
    pub fn get() -> (r: Method)
        ensures
            r@ == method_get(),
            r.wf(),
    {
        let mut token = String::new();
        crate::text::push_char(&mut token, 'G');
        crate::text::push_char(&mut token, 'E');
        crate::text::push_char(&mut token, 'T');
        proof {
            assert(token@ =~= method_get());
        }
        Method { token }
    }

    /// The `POST` method.
    pub fn post() -> (r: Method)
        ensures
            r@ == method_post(),
            r.wf(),
    {
        let mut token = String::new();
        crate::text::push_char(&mut token, 'P');
        crate::text::push_char(&mut token, 'O');
        crate::text::push_char(&mut token, 'S');
        crate::text::push_char(&mut token, 'T');
        proof {
            assert(token@ =~= method_post());
        }
        Method { token }
    }

    /// The method token as written.
    pub fn as_str(&self) -> (r: &str)
        ensures
            r@ == self@,
    {
        self.token.as_str()
    }
}

} // verus!
