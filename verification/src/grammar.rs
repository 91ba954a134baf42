//! The grammar engine: tokenizes curl-syntax text into typed fragments.
//!
//! Lexical rules: leading `#` lines are comments; a backslash before a
//! newline is a line continuation; argument values may be bare,
//! single-quoted (verbatim, may span lines) or double-quoted (escapes are
//! recognized so an escaped quote does not end the value, and the raw text
//! between the quotes is kept for the reducer to unescape).
use vstd::prelude::*;
use crate::error::{Error, SpecError};
use crate::text::{is_space, spec_find, lemma_find};

verus! {

/// One classified token of the input: a recognized flag with its value, a
/// positional URL, or the end of the input.
#[derive(Debug, Clone)]
pub enum Fragment {
    /// `-X` / `--request`: the method token, quotes removed.
    Method(String),
    /// A bare (non-flag) token: the positional URL, quotes removed.
    Url(String),
    /// `-L` / `--location`: the redirect target, quotes removed.
    Location(String),
    /// `-H` / `--header`: the full `Name: Value` text, quotes removed.
    Header(String),
    /// `-u` / `--user`: the `user:pass` text, quotes removed.
    Auth(String),
    /// `-d` / `--data` / `--data-raw`: the value as written, quotes kept.
    Body(String),
    /// `-k` / `--insecure`.
    InsecureFlag,
    /// The end of the fragment stream.
    EndOfInput,
}

/// Spec-level image of a [`Fragment`].
pub enum SpecFragment {
    Method(Seq<char>),
    Url(Seq<char>),
    Location(Seq<char>),
    Header(Seq<char>),
    Auth(Seq<char>),
    Body(Seq<char>),
    InsecureFlag,
    EndOfInput,
}

impl View for Fragment {
    type V = SpecFragment;

    open spec fn view(&self) -> SpecFragment {
        match self {
            Fragment::Method(s) => SpecFragment::Method(s@),
            Fragment::Url(s) => SpecFragment::Url(s@),
            Fragment::Location(s) => SpecFragment::Location(s@),
            Fragment::Header(s) => SpecFragment::Header(s@),
            Fragment::Auth(s) => SpecFragment::Auth(s@),
            Fragment::Body(s) => SpecFragment::Body(s@),
            Fragment::InsecureFlag => SpecFragment::InsecureFlag,
            Fragment::EndOfInput => SpecFragment::EndOfInput,
        }
    }
}

/// The views of a fragment vector, in order.
pub open spec fn frags_view(s: Seq<Fragment>) -> Seq<SpecFragment> {
    s.map_values(|f: Fragment| f@)
}

/// Whether position `i` stands on inter-token whitespace: a space
/// character, or a backslash starting a line continuation.
pub open spec fn is_break_at(s: Seq<char>, i: int) -> bool
    recommends
        0 <= i < s.len(),
{
    is_space(s[i]) || (s[i] == '\\' && i + 1 < s.len() && (s[i + 1] == '\n' || s[i + 1] == '\r'))
}

/// Executable mirror of [`is_break_at`].
pub fn break_at(v: &Vec<char>, i: usize) -> (r: bool)
    requires
        i < v@.len(),
    ensures
        r == is_break_at(v@, i as int),
{
    let c = v[i];
    crate::text::space_char(c) || (c == '\\' && v.len() - i > 1 && (v[i + 1] == '\n' || v[i + 1]
        == '\r'))
}

/// First position at or after `i` that is not inter-token whitespace.
pub open spec fn skip_ws(s: Seq<char>, i: int) -> int
    decreases s.len() - i,
    when 0 <= i <= s.len()
{
    if i < s.len() && is_break_at(s, i) {
        if s[i] == '\\' {
            skip_ws(s, i + 2)
        } else {
            skip_ws(s, i + 1)
        }
    } else {
        i
    }
}

pub proof fn lemma_skip_ws(s: Seq<char>, i: int)
    requires
        0 <= i <= s.len(),
    ensures
        i <= skip_ws(s, i) <= s.len(),
        skip_ws(s, i) < s.len() ==> !is_break_at(s, skip_ws(s, i)),
    decreases s.len() - i,
{
    if i < s.len() && is_break_at(s, i) {
        if s[i] == '\\' {
            lemma_skip_ws(s, i + 2);
        } else {
            lemma_skip_ws(s, i + 1);
        }
    }
}

/// Executable mirror of [`skip_ws`].
pub fn skip_ws_exec(v: &Vec<char>, from: usize) -> (r: usize)
    requires
        from <= v@.len(),
    ensures
        r == skip_ws(v@, from as int),
        from <= r <= v@.len(),
{
    let mut i: usize = from;
    while i < v.len() && break_at(v, i)
        invariant
            from <= i <= v@.len(),
            skip_ws(v@, from as int) == skip_ws(v@, i as int),
        decreases v.len() - i,
    {
        if v[i] == '\\' {
            i += 2;
        } else {
            i += 1;
        }
    }
    i
}

/// The position after the current comment line: one past the next newline,
/// or the end of the input.
pub open spec fn line_end(s: Seq<char>, i: int) -> int
    recommends
        0 <= i <= s.len(),
{
    match spec_find(s, i, '\n') {
        Some(j) => j + 1,
        None => s.len() as int,
    }
}

/// Skips whitespace and leading `#` comment lines.
pub open spec fn skip_comments(s: Seq<char>, i: int) -> int
    decreases s.len() - i,
    when 0 <= i <= s.len()
    via skip_comments_dec
{
    let j = skip_ws(s, i);
    if j < s.len() && s[j] == '#' {
        skip_comments(s, line_end(s, j))
    } else {
        j
    }
}

#[via_fn]
proof fn skip_comments_dec(s: Seq<char>, i: int) {
    lemma_skip_ws(s, i);
    let j = skip_ws(s, i);
    if j < s.len() && s[j] == '#' {
        lemma_find(s, j, '\n');
    }
}

/// Executable mirror of [`skip_comments`] from the start of the input.
pub fn skip_comments_exec(v: &Vec<char>) -> (r: usize)
    ensures
        r == skip_comments(v@, 0),
        r <= v@.len(),
{
    let mut i: usize = 0;
    loop
        invariant
            i <= v@.len(),
            skip_comments(v@, 0) == skip_comments(v@, i as int),
        decreases v@.len() - i,
    {
        let j = skip_ws_exec(v, i);
        if j < v.len() && v[j] == '#' {
            proof {
                lemma_find(v@, j as int, '\n');
            }
            match crate::text::find_char(v, j, '\n') {
                Some(k) => {
                    i = k + 1;
                },
                None => {
                    i = v.len();
                },
            }
        } else {
            return j;
        }
    }
}

/// Position of the closing double quote, scanning from `i` and stepping
/// over backslash escapes.
pub open spec fn dq_end(s: Seq<char>, i: int) -> Option<int>
    decreases s.len() - i,
    when 0 <= i <= s.len()
{
    if i >= s.len() {
        None
    } else if s[i] == '"' {
        Some(i)
    } else if s[i] == '\\' && i + 1 < s.len() {
        dq_end(s, i + 2)
    } else {
        dq_end(s, i + 1)
    }
}

pub proof fn lemma_dq_end(s: Seq<char>, i: int)
    requires
        0 <= i <= s.len(),
    ensures
        match dq_end(s, i) {
            Some(j) => i <= j < s.len() && s[j] == '"',
            None => true,
        },
    decreases s.len() - i,
{
    if i < s.len() && s[i] != '"' {
        if s[i] == '\\' && i + 1 < s.len() {
            lemma_dq_end(s, i + 2);
        } else {
            lemma_dq_end(s, i + 1);
        }
    }
}

/// Executable mirror of [`dq_end`].
pub fn dq_end_exec(v: &Vec<char>, from: usize) -> (r: Option<usize>)
    requires
        from <= v@.len(),
    ensures
        match r {
            Some(j) => dq_end(v@, from as int) == Some(j as int) && from <= j < v@.len(),
            None => dq_end(v@, from as int) is None,
        },
{
    let mut i: usize = from;
    while i < v.len()
        invariant
            from <= i <= v@.len(),
            dq_end(v@, from as int) == dq_end(v@, i as int),
        decreases v.len() - i,
    {
        if v[i] == '"' {
            return Some(i);
        }
        if v[i] == '\\' && v.len() - i > 1 {
            i += 2;
        } else {
            i += 1;
        }
    }
    None
}

/// End of a bare token: the first break position at or after `i`.
pub open spec fn bare_end(s: Seq<char>, i: int) -> int
    decreases s.len() - i,
    when 0 <= i <= s.len()
{
    if i < s.len() && !is_break_at(s, i) {
        bare_end(s, i + 1)
    } else {
        i
    }
}

pub proof fn lemma_bare_end(s: Seq<char>, i: int)
    requires
        0 <= i <= s.len(),
    ensures
        i <= bare_end(s, i) <= s.len(),
    decreases s.len() - i,
{
    if i < s.len() && !is_break_at(s, i) {
        lemma_bare_end(s, i + 1);
    }
}

/// Executable mirror of [`bare_end`].
pub fn bare_end_exec(v: &Vec<char>, from: usize) -> (r: usize)
    requires
        from <= v@.len(),
    ensures
        r == bare_end(v@, from as int),
        from <= r <= v@.len(),
{
    let mut i: usize = from;
    while i < v.len() && !break_at(v, i)
        invariant
            from <= i <= v@.len(),
            bare_end(v@, from as int) == bare_end(v@, i as int),
        decreases v.len() - i,
    {
        i += 1;
    }
    i
}

/// A token scanned at one position: `raw` is the text exactly as written,
/// `inner` is the text with surrounding quotes removed, and `end` is the
/// position just after the token.
pub struct SpecToken {
    pub inner: Seq<char>,
    pub raw: Seq<char>,
    pub end: int,
}

/// Reads one token at `i`; `None` means an unterminated quote.
pub open spec fn read_token(s: Seq<char>, i: int) -> Option<SpecToken>
    recommends
        0 <= i < s.len(),
{
    if s[i] == '\'' {
        match spec_find(s, i + 1, '\'') {
            Some(j) => Some(
                SpecToken { inner: s.subrange(i + 1, j), raw: s.subrange(i, j + 1), end: j + 1 },
            ),
            None => None,
        }
    } else if s[i] == '"' {
        match dq_end(s, i + 1) {
            Some(j) => Some(
                SpecToken { inner: s.subrange(i + 1, j), raw: s.subrange(i, j + 1), end: j + 1 },
            ),
            None => None,
        }
    } else {
        let j = bare_end(s, i);
        Some(SpecToken { inner: s.subrange(i, j), raw: s.subrange(i, j), end: j })
    }
}

pub proof fn lemma_read_token(s: Seq<char>, i: int)
    requires
        0 <= i < s.len(),
        !is_break_at(s, i),
    ensures
        match read_token(s, i) {
            Some(t) => i < t.end <= s.len(),
            None => true,
        },
{
    if s[i] == '\'' {
        lemma_find(s, i + 1, '\'');
    } else if s[i] == '"' {
        lemma_dq_end(s, i + 1);
    } else {
        lemma_bare_end(s, i);
        assert(bare_end(s, i) == bare_end(s, i + 1));
        lemma_bare_end(s, i + 1);
    }
}

/// An executable token: see [`SpecToken`].
pub struct Token {
    pub inner: Vec<char>,
    pub raw: Vec<char>,
    pub end: usize,
}

impl Token {
    /// This token is what [`read_token`] yields at position `i` of `s`.
    pub open spec fn is_read_at(self, s: Seq<char>, i: int) -> bool {
        read_token(s, i) == Some(
            SpecToken { inner: self.inner@, raw: self.raw@, end: self.end as int },
        )
    }
}

/// Executable mirror of [`read_token`].
pub fn read_token_exec(v: &Vec<char>, i: usize) -> (r: Option<Token>)
    requires
        i < v@.len(),
        !is_break_at(v@, i as int),
    ensures
        match r {
            Some(t) => t.is_read_at(v@, i as int) && i < t.end <= v@.len(),
            None => read_token(v@, i as int) is None,
        },
{
    proof {
        lemma_read_token(v@, i as int);
        assert(v@.len() == v.len());
    }
    let c = v[i];
    if c == '\'' {
        proof {
            lemma_find(v@, i + 1, '\'');
        }
        match crate::text::find_char(v, i + 1, '\'') {
            Some(j) => {
                let inner = crate::text::sub_vec(v, i + 1, j);
                let raw = crate::text::sub_vec(v, i, j + 1);
                Some(Token { inner, raw, end: j + 1 })
            },
            None => None,
        }
    } else if c == '"' {
        match dq_end_exec(v, i + 1) {
            Some(j) => {
                let inner = crate::text::sub_vec(v, i + 1, j);
                let raw = crate::text::sub_vec(v, i, j + 1);
                Some(Token { inner, raw, end: j + 1 })
            },
            None => None,
        }
    } else {
        let j = bare_end_exec(v, i);
        let inner = crate::text::sub_vec(v, i, j);
        let raw = crate::text::sub_vec(v, i, j);
        Some(Token { inner, raw, end: j })
    }
}

/// The spelling of the leading word every input must start with.
pub open spec fn curl_word() -> Seq<char> {
    seq!['c', 'u', 'r', 'l']
}

/// The fragment stream from position `i` to the end of the input.
pub open spec fn fragments_from(s: Seq<char>, i: int) -> Result<Seq<SpecFragment>, SpecError>
    decreases s.len() - i,
    when 0 <= i <= s.len()
    via fragments_from_dec
{
    let j = skip_ws(s, i);
    if j >= s.len() {
        Ok(seq![SpecFragment::EndOfInput])
    } else {
        match read_token(s, j) {
            None => Err(SpecError::Grammar),
            Some(t) => {
                if t.raw.len() > 0 && t.raw[0] == '-' {
                    if t.raw =~= seq!['-', 'k'] || t.raw =~= seq![
                        '-',
                        '-',
                        'i',
                        'n',
                        's',
                        'e',
                        'c',
                        'u',
                        'r',
                        'e',
                    ] {
                        match fragments_from(s, t.end) {
                            Ok(rest) => Ok(seq![SpecFragment::InsecureFlag] + rest),
                            Err(e) => Err(e),
                        }
                    } else {
                        match value_flag_fragment(t.raw) {
                            Some(_) => {
                                let w = skip_ws(s, t.end);
                                if w >= s.len() {
                                    Err(SpecError::Grammar)
                                } else {
                                    match read_token(s, w) {
                                        None => Err(SpecError::Grammar),
                                        Some(val) => {
                                            match fragments_from(s, val.end) {
                                                Ok(rest) => Ok(
                                                    seq![
                                                        make_fragment(
                                                            value_flag_fragment(t.raw)->Some_0,
                                                            val,
                                                        ),
                                                    ] + rest,
                                                ),
                                                Err(e) => Err(e),
                                            }
                                        },
                                    }
                                }
                            },
                            None => Err(SpecError::Grammar),
                        }
                    }
                } else {
                    match fragments_from(s, t.end) {
                        Ok(rest) => Ok(seq![SpecFragment::Url(t.inner)] + rest),
                        Err(e) => Err(e),
                    }
                }
            },
        }
    }
}

/// The kind of fragment a value-taking flag produces.
pub enum ValueFlag {
    Method,
    Header,
    Body,
    Auth,
    Location,
}

/// Which value-taking flag a raw token spells, if any.
pub open spec fn value_flag_fragment(raw: Seq<char>) -> Option<ValueFlag> {
    if raw =~= seq!['-', 'X'] || raw =~= seq!['-', '-', 'r', 'e', 'q', 'u', 'e', 's', 't'] {
        Some(ValueFlag::Method)
    } else if raw =~= seq!['-', 'H'] || raw =~= seq!['-', '-', 'h', 'e', 'a', 'd', 'e', 'r'] {
        Some(ValueFlag::Header)
    } else if raw =~= seq!['-', 'd'] || raw =~= seq!['-', '-', 'd', 'a', 't', 'a'] || raw =~= seq![
        '-',
        '-',
        'd',
        'a',
        't',
        'a',
        '-',
        'r',
        'a',
        'w',
    ] {
        Some(ValueFlag::Body)
    } else if raw =~= seq!['-', 'u'] || raw =~= seq!['-', '-', 'u', 's', 'e', 'r'] {
        Some(ValueFlag::Auth)
    } else if raw =~= seq!['-', 'L'] || raw =~= seq!['-', '-', 'l', 'o', 'c', 'a', 't', 'i', 'o', 'n'] {
        Some(ValueFlag::Location)
    } else {
        None
    }
}

/// The fragment a value-taking flag builds from its value token: the body
/// keeps the raw text (quotes included, for the reducer to strip); every
/// other kind takes the inner text.
pub open spec fn make_fragment(kind: ValueFlag, val: SpecToken) -> SpecFragment {
    match kind {
        ValueFlag::Method => SpecFragment::Method(val.inner),
        ValueFlag::Header => SpecFragment::Header(val.inner),
        ValueFlag::Body => SpecFragment::Body(val.raw),
        ValueFlag::Auth => SpecFragment::Auth(val.inner),
        ValueFlag::Location => SpecFragment::Location(val.inner),
    }
}

#[via_fn]
proof fn fragments_from_dec(s: Seq<char>, i: int) {
    lemma_skip_ws(s, i);
    let j = skip_ws(s, i);
    if j < s.len() {
        lemma_read_token(s, j);
        match read_token(s, j) {
            Some(t) => {
                lemma_skip_ws(s, t.end);
                let w = skip_ws(s, t.end);
                if w < s.len() {
                    lemma_read_token(s, w);
                }
            },
            None => {},
        }
    }
}

/// The whole tokenization: comments, the word `curl`, then the fragments.
pub open spec fn spec_tokenize(s: Seq<char>) -> Result<Seq<SpecFragment>, SpecError> {
    let a = skip_comments(s, 0);
    if a >= s.len() {
        Err(SpecError::Grammar)
    } else {
        match read_token(s, a) {
            None => Err(SpecError::Grammar),
            Some(t) => {
                if t.raw =~= curl_word() {
                    fragments_from(s, t.end)
                } else {
                    Err(SpecError::Grammar)
                }
            },
        }
    }
}

/// Builds a grammar error with an informative message.
fn grammar_err(msg: &str) -> (e: Error)
    ensures
        e@ == SpecError::Grammar,
{
    Error::Grammar { message: msg.to_owned() }
}

/// The grammar engine.  The name reflects its role: it is the parser for
/// the curl-syntax language.
pub struct CurlParser;

impl CurlParser {
    /// Tokenizes curl-syntax text into its fragment stream.
    ///
    /// The result is exactly [`spec_tokenize`] of the input: on success the
    /// fragment views, on failure the error classification.
    pub fn tokenize(input: &str) -> (r: Result<Vec<Fragment>, Error>)
        ensures
            match r {
                Ok(frags) => spec_tokenize(input@) == Ok::<_, SpecError>(frags_view(frags@)),
                Err(e) => spec_tokenize(input@) == Err::<Seq<SpecFragment>, _>(e@),
            },
    {
        let v = crate::text::chars_vec(input);
        let ghost s = v@;
        let a = skip_comments_exec(&v);
        proof {
            lemma_skip_ws(s, 0);
        }
        if a >= v.len() {
            return Err(grammar_err("expected the word curl"));
        }
        proof {
            lemma_skip_comments_stop(s, 0);
        }
        let first = match read_token_exec(&v, a) {
            Some(t) => t,
            None => {
                return Err(grammar_err("unterminated quote"));
            },
        };
        if !crate::text::chars_eq(&first.raw, &['c', 'u', 'r', 'l']) {
            proof {
                assert(!(first.raw@ =~= curl_word()));
            }
            return Err(grammar_err("expected the word curl"));
        }
        let mut frags: Vec<Fragment> = Vec::new();
        let mut i: usize = first.end;
        proof {
            assert(first.raw@ =~= curl_word());
            assert(spec_tokenize(s) == fragments_from(s, first.end as int));
            assert(frags_view(frags@) =~= Seq::<SpecFragment>::empty());
        }
        loop
            invariant
                s == v@,
                s == input@,
                i <= v@.len(),
                match fragments_from(s, i as int) {
                    Ok(rest) => spec_tokenize(input@) == Ok::<_, SpecError>(
                        frags_view(frags@) + rest,
                    ),
                    Err(e) => spec_tokenize(input@) == Err::<Seq<SpecFragment>, _>(e),
                },
            decreases v@.len() - i,
        {
            let ghost i0 = i as int;
            let j = skip_ws_exec(&v, i);
            proof {
                lemma_skip_ws(s, i0);
            }
            if j >= v.len() {
                proof {
                    assert(fragments_from(s, i0) == Ok::<_, SpecError>(
                        seq![SpecFragment::EndOfInput],
                    ));
                    lemma_push_view(frags@, Fragment::EndOfInput, SpecFragment::EndOfInput);
                }
                frags.push(Fragment::EndOfInput);
                return Ok(frags);
            }
            let t = match read_token_exec(&v, j) {
                Some(t) => t,
                None => {
                    return Err(grammar_err("unterminated quote"));
                },
            };
            let is_flag = t.raw.len() > 0 && t.raw[0] == '-';
            if !is_flag {
                let frag = Fragment::Url(crate::text::string_from_chars(&t.inner));
                proof {
                    lemma_push_view(frags@, frag, SpecFragment::Url(t.inner@));
                    let r = fragments_from(s, t.end as int);
                    if r is Ok {
                        lemma_seq_assoc(frags_view(frags@), frag@, r->Ok_0);
                    }
                }
                frags.push(frag);
                i = t.end;
                continue;
            }
            if chars_eq2(&t.raw, &['-', 'k'], &['-', '-', 'i', 'n', 's', 'e', 'c', 'u', 'r', 'e'])
            {
                proof {
                    lemma_push_view(frags@, Fragment::InsecureFlag, SpecFragment::InsecureFlag);
                    let r = fragments_from(s, t.end as int);
                    if r is Ok {
                        lemma_seq_assoc(frags_view(frags@), SpecFragment::InsecureFlag, r->Ok_0);
                    }
                }
                frags.push(Fragment::InsecureFlag);
                i = t.end;
                continue;
            }
            // A value-taking flag, or an unknown one.
            let kind = if chars_eq2(&t.raw, &['-', 'X'], &['-', '-', 'r', 'e', 'q', 'u', 'e', 's', 't']) {
                ValueFlag::Method
            } else if chars_eq2(&t.raw, &['-', 'H'], &['-', '-', 'h', 'e', 'a', 'd', 'e', 'r']) {
                ValueFlag::Header
            } else if chars_eq2(&t.raw, &['-', 'd'], &['-', '-', 'd', 'a', 't', 'a']) || crate::text::chars_eq(
                &t.raw,
                &['-', '-', 'd', 'a', 't', 'a', '-', 'r', 'a', 'w'],
            ) {
                ValueFlag::Body
            } else if chars_eq2(&t.raw, &['-', 'u'], &['-', '-', 'u', 's', 'e', 'r']) {
                ValueFlag::Auth
            } else if chars_eq2(&t.raw, &['-', 'L'], &['-', '-', 'l', 'o', 'c', 'a', 't', 'i', 'o', 'n']) {
                ValueFlag::Location
            } else {
                proof {
                    assert(value_flag_fragment(t.raw@) is None);
                }
                return Err(grammar_err("unknown flag"));
            };
            proof {
                assert(value_flag_fragment(t.raw@) is Some);
            }
            let w = skip_ws_exec(&v, t.end);
            proof {
                lemma_skip_ws(s, t.end as int);
            }
            if w >= v.len() {
                return Err(grammar_err("flag expects a value"));
            }
            let val = match read_token_exec(&v, w) {
                Some(val) => val,
                None => {
                    return Err(grammar_err("unterminated quote"));
                },
            };
            let frag = match kind {
                ValueFlag::Method => Fragment::Method(crate::text::string_from_chars(&val.inner)),
                ValueFlag::Header => Fragment::Header(crate::text::string_from_chars(&val.inner)),
                ValueFlag::Body => Fragment::Body(crate::text::string_from_chars(&val.raw)),
                ValueFlag::Auth => Fragment::Auth(crate::text::string_from_chars(&val.inner)),
                ValueFlag::Location => Fragment::Location(
                    crate::text::string_from_chars(&val.inner),
                ),
            };
            proof {
                let sval = SpecToken { inner: val.inner@, raw: val.raw@, end: val.end as int };
                assert(frag@ == make_fragment(value_flag_fragment(t.raw@)->Some_0, sval));
                lemma_push_view(frags@, frag, frag@);
                let r = fragments_from(s, val.end as int);
                if r is Ok {
                    lemma_seq_assoc(frags_view(frags@), frag@, r->Ok_0);
                }
            }
            frags.push(frag);
            i = val.end;
        }
    }
}

/// Whether `a` equals either of two expected spellings.
fn chars_eq2(a: &Vec<char>, x: &[char], y: &[char]) -> (r: bool)
    ensures
        r == (a@ == x@ || a@ == y@),
{
    crate::text::chars_eq(a, x) || crate::text::chars_eq(a, y)
}

/// Concatenation of fragment sequences is associative.
proof fn lemma_seq_assoc(a: Seq<SpecFragment>, b: SpecFragment, c: Seq<SpecFragment>)
    ensures
        a + (seq![b] + c) == (a + seq![b]) + c,
{
    assert(a + (seq![b] + c) =~= (a + seq![b]) + c);
}

/// Appending a fragment appends its view.
proof fn lemma_push_view(frags: Seq<Fragment>, f: Fragment, sf: SpecFragment)
    requires
        f@ == sf,
    ensures
        frags_view(frags.push(f)) == frags_view(frags) + seq![sf],
{
    assert(frags_view(frags.push(f)) =~= frags_view(frags) + seq![sf]);
}

/// A successful fragment stream ends with exactly one end-of-input
/// fragment: it is the last fragment, and no earlier one.
pub proof fn lemma_fragments_end(s: Seq<char>, i: int)
    requires
        0 <= i <= s.len(),
        fragments_from(s, i) is Ok,
    ensures
        ({
            let fs = fragments_from(s, i)->Ok_0;
            &&& fs.len() >= 1
            &&& fs.last() == SpecFragment::EndOfInput
            &&& forall|k: int| 0 <= k < fs.len() - 1 ==> !(fs[k] is EndOfInput)
        }),
    decreases s.len() - i,
{
    lemma_skip_ws(s, i);
    let j = skip_ws(s, i);
    if j >= s.len() {
    } else {
        lemma_read_token(s, j);
        let t = read_token(s, j)->Some_0;
        if t.raw.len() > 0 && t.raw[0] == '-' {
            if t.raw =~= seq!['-', 'k'] || t.raw =~= seq![
                '-',
                '-',
                'i',
                'n',
                's',
                'e',
                'c',
                'u',
                'r',
                'e',
            ] {
                lemma_fragments_end(s, t.end);
                let rest = fragments_from(s, t.end)->Ok_0;
                let fs = fragments_from(s, i)->Ok_0;
                assert(fs == seq![SpecFragment::InsecureFlag] + rest);
                assert(fs.last() == rest.last());
                assert forall|k: int| 0 <= k < fs.len() - 1 implies !(fs[k] is EndOfInput) by {
                    if k > 0 {
                        assert(fs[k] == rest[k - 1]);
                    }
                }
            } else {
                let w = skip_ws(s, t.end);
                lemma_skip_ws(s, t.end);
                lemma_read_token(s, w);
                let val = read_token(s, w)->Some_0;
                lemma_fragments_end(s, val.end);
                let rest = fragments_from(s, val.end)->Ok_0;
                let fs = fragments_from(s, i)->Ok_0;
                let f = make_fragment(value_flag_fragment(t.raw)->Some_0, val);
                assert(fs == seq![f] + rest);
                assert(fs.last() == rest.last());
                assert(!(f is EndOfInput));
                assert forall|k: int| 0 <= k < fs.len() - 1 implies !(fs[k] is EndOfInput) by {
                    if k > 0 {
                        assert(fs[k] == rest[k - 1]);
                    }
                }
            }
        } else {
            lemma_fragments_end(s, t.end);
            let rest = fragments_from(s, t.end)->Ok_0;
            let fs = fragments_from(s, i)->Ok_0;
            assert(fs == seq![SpecFragment::Url(t.inner)] + rest);
            assert(fs.last() == rest.last());
            assert forall|k: int| 0 <= k < fs.len() - 1 implies !(fs[k] is EndOfInput) by {
                if k > 0 {
                    assert(fs[k] == rest[k - 1]);
                }
            }
        }
    }
}

/// A successful tokenization yields a stream whose one end-of-input
/// fragment stands last.
pub proof fn lemma_tokenize_ends(s: Seq<char>)
    requires
        spec_tokenize(s) is Ok,
    ensures
        ({
            let fs = spec_tokenize(s)->Ok_0;
            &&& fs.len() >= 1
            &&& fs.last() == SpecFragment::EndOfInput
            &&& forall|k: int| 0 <= k < fs.len() - 1 ==> !(fs[k] is EndOfInput)
        }),
{
    lemma_skip_comments_stop(s, 0);
    let a = skip_comments(s, 0);
    lemma_read_token(s, a);
    let t = read_token(s, a)->Some_0;
    lemma_fragments_end(s, t.end);
}

/// Position `j` is reached by the fragment scanner from position `i`:
/// it is `i` itself, or is reached from the position after one consumed
/// token (together with its value token, for a value-taking flag).
pub open spec fn scan_reaches(s: Seq<char>, i: int, j: int) -> bool
    decreases s.len() - i,
    when 0 <= i <= s.len()
    via scan_reaches_dec
{
    i == j || {
        let p = skip_ws(s, i);
        p < s.len() && match read_token(s, p) {
            None => false,
            Some(t) => {
                if t.raw.len() > 0 && t.raw[0] == '-' {
                    if t.raw =~= seq!['-', 'k'] || t.raw =~= seq![
                        '-',
                        '-',
                        'i',
                        'n',
                        's',
                        'e',
                        'c',
                        'u',
                        'r',
                        'e',
                    ] {
                        scan_reaches(s, t.end, j)
                    } else if value_flag_fragment(t.raw) is Some {
                        let w = skip_ws(s, t.end);
                        w < s.len() && match read_token(s, w) {
                            None => false,
                            Some(val) => scan_reaches(s, val.end, j),
                        }
                    } else {
                        false
                    }
                } else {
                    scan_reaches(s, t.end, j)
                }
            },
        }
    }
}

#[via_fn]
proof fn scan_reaches_dec(s: Seq<char>, i: int, j: int) {
    lemma_skip_ws(s, i);
    let p = skip_ws(s, i);
    if p < s.len() {
        lemma_read_token(s, p);
        match read_token(s, p) {
            Some(t) => {
                lemma_skip_ws(s, t.end);
                let w = skip_ws(s, t.end);
                if w < s.len() {
                    lemma_read_token(s, w);
                }
            },
            None => {},
        }
    }
}

/// An error in the fragment stream at a reached position is the error of
/// the whole stream from the starting position.
pub proof fn lemma_scan_error_propagates(s: Seq<char>, i: int, j: int, e: SpecError)
    requires
        0 <= i <= s.len(),
        scan_reaches(s, i, j),
        0 <= j <= s.len(),
        fragments_from(s, j) == Err::<Seq<SpecFragment>, SpecError>(e),
    ensures
        fragments_from(s, i) == Err::<Seq<SpecFragment>, SpecError>(e),
    decreases s.len() - i,
{
    if i == j {
    } else {
        lemma_skip_ws(s, i);
        let p = skip_ws(s, i);
        lemma_read_token(s, p);
        let t = read_token(s, p)->Some_0;
        if t.raw.len() > 0 && t.raw[0] == '-' {
            if t.raw =~= seq!['-', 'k'] || t.raw =~= seq![
                '-',
                '-',
                'i',
                'n',
                's',
                'e',
                'c',
                'u',
                'r',
                'e',
            ] {
                lemma_scan_error_propagates(s, t.end, j, e);
            } else {
                lemma_skip_ws(s, t.end);
                let w = skip_ws(s, t.end);
                lemma_read_token(s, w);
                let val = read_token(s, w)->Some_0;
                lemma_scan_error_propagates(s, val.end, j, e);
            }
        } else {
            lemma_scan_error_propagates(s, t.end, j, e);
        }
    }
}

/// Whether at position `j` the scanner stands on a header flag whose
/// value token reads as `val`.
pub open spec fn header_at(s: Seq<char>, j: int, val: SpecToken) -> bool
    recommends
        0 <= j <= s.len(),
{
    let p = skip_ws(s, j);
    p < s.len() && match read_token(s, p) {
        Some(t) => (t.raw =~= seq!['-', 'H'] || t.raw =~= seq![
            '-',
            '-',
            'h',
            'e',
            'a',
            'd',
            'e',
            'r',
        ]) && {
            let w = skip_ws(s, t.end);
            w < s.len() && read_token(s, w) == Some(val)
        },
        None => false,
    }
}

/// A reached header flag, with its value token, contributes its header
/// fragment to every successful stream.
pub proof fn lemma_scan_header_fragment(s: Seq<char>, i: int, j: int, val: SpecToken)
    requires
        0 <= i <= s.len(),
        scan_reaches(s, i, j),
        0 <= j <= s.len(),
        header_at(s, j, val),
        fragments_from(s, i) is Ok,
    ensures
        exists|k: int|
            0 <= k < fragments_from(s, i)->Ok_0.len() && fragments_from(s, i)->Ok_0[k]
                == SpecFragment::Header(val.inner),
    decreases s.len() - i,
{
    let fs = fragments_from(s, i)->Ok_0;
    if i == j {
        lemma_skip_ws(s, j);
        let p = skip_ws(s, j);
        lemma_read_token(s, p);
        let t = read_token(s, p)->Some_0;
        lemma_skip_ws(s, t.end);
        let w = skip_ws(s, t.end);
        lemma_read_token(s, w);
        assert(value_flag_fragment(t.raw) is Some);
        assert(fs[0] == SpecFragment::Header(val.inner));
        assert(0 <= 0 < fs.len() && fs[0] == SpecFragment::Header(val.inner));
    } else {
        lemma_skip_ws(s, i);
        let p = skip_ws(s, i);
        lemma_read_token(s, p);
        let t = read_token(s, p)->Some_0;
        if t.raw.len() > 0 && t.raw[0] == '-' {
            if t.raw =~= seq!['-', 'k'] || t.raw =~= seq![
                '-',
                '-',
                'i',
                'n',
                's',
                'e',
                'c',
                'u',
                'r',
                'e',
            ] {
                lemma_scan_header_fragment(s, t.end, j, val);
                let rest = fragments_from(s, t.end)->Ok_0;
                let k = choose|k: int|
                    0 <= k < rest.len() && rest[k] == SpecFragment::Header(val.inner);
                assert(fs[k + 1] == SpecFragment::Header(val.inner));
            } else {
                lemma_skip_ws(s, t.end);
                let w = skip_ws(s, t.end);
                lemma_read_token(s, w);
                let v2 = read_token(s, w)->Some_0;
                lemma_scan_header_fragment(s, v2.end, j, val);
                let rest = fragments_from(s, v2.end)->Ok_0;
                let k = choose|k: int|
                    0 <= k < rest.len() && rest[k] == SpecFragment::Header(val.inner);
                assert(fs[k + 1] == SpecFragment::Header(val.inner));
            }
        } else {
            lemma_scan_header_fragment(s, t.end, j, val);
            let rest = fragments_from(s, t.end)->Ok_0;
            let k = choose|k: int|
                0 <= k < rest.len() && rest[k] == SpecFragment::Header(val.inner);
            assert(fs[k + 1] == SpecFragment::Header(val.inner));
        }
    }
}

/// A value-taking flag with no following value is a grammar error, not a
/// crash: the fragment stream from any position whose next token spells a
/// value-taking flag, with only whitespace after it, is the grammar-error
/// result.
pub proof fn lemma_missing_value(s: Seq<char>, i: int)
    requires
        0 <= i <= s.len(),
        skip_ws(s, i) < s.len(),
        read_token(s, skip_ws(s, i)) is Some,
        value_flag_fragment(read_token(s, skip_ws(s, i))->Some_0.raw) is Some,
        skip_ws(s, read_token(s, skip_ws(s, i))->Some_0.end) >= s.len(),
    ensures
        fragments_from(s, i) == Err::<Seq<SpecFragment>, SpecError>(SpecError::Grammar),
{
    let j = skip_ws(s, i);
    let t = read_token(s, j)->Some_0;
    assert(t.raw.len() > 0 && t.raw[0] == '-');
    assert(!(t.raw =~= seq!['-', 'k']));
    assert(!(t.raw =~= seq!['-', '-', 'i', 'n', 's', 'e', 'c', 'u', 'r', 'e']));
}

/// After skipping comments, the scanner never stands on whitespace.
pub proof fn lemma_skip_comments_stop(s: Seq<char>, i: int)
    requires
        0 <= i <= s.len(),
    ensures
        i <= skip_comments(s, i) <= s.len(),
        skip_comments(s, i) < s.len() ==> !is_break_at(s, skip_comments(s, i)),
    decreases s.len() - i,
{
    lemma_skip_ws(s, i);
    let j = skip_ws(s, i);
    if j < s.len() && s[j] == '#' {
        lemma_find(s, j, '\n');
        lemma_skip_comments_stop(s, line_end(s, j));
    }
}

} // verus!
