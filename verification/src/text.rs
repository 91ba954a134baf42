//! Character-level utilities shared by the grammar engine and the reducer:
//! whitespace classes, quote stripping, escape handling, and conversions
//! between `String` and `Vec<char>`.
use vstd::prelude::*;

verus! {

/// Whitespace as the grammar engine understands it.
pub open spec fn is_space(c: char) -> bool {
    c == ' ' || c == '\t' || c == '\r' || c == '\n'
}

/// Executable mirror of [`is_space`].
pub fn space_char(c: char) -> (r: bool)
    ensures
        r == is_space(c),
{
    c == ' ' || c == '\t' || c == '\r' || c == '\n'
}

/// Collects the characters of a string slice into a vector.
pub fn chars_vec(s: &str) -> (r: Vec<char>)
    ensures
        r@ == s@,
{
    let mut r: Vec<char> = Vec::new();
    for c in it: s.chars()
        invariant
            r@ == it.seq().take(it.index()),
    {
        r.push(c);
    }
    proof {
        assert(r@ =~= s@);
    }
    r
}

/// Relies on `String::push`: appends one character to the string.
#[verifier::external_body]
pub fn push_char(s: &mut String, c: char)
    ensures
        final(s)@ == old(s)@ + seq![c],
{
    s.push(c)
}

/// Builds a string whose characters are exactly those of `v`.
pub fn string_from_chars(v: &Vec<char>) -> (r: String)
    ensures
        r@ == v@,
{
    let mut r = String::new();
    let mut i: usize = 0;
    while i < v.len()
        invariant
            i <= v.len(),
            r@ == v@.take(i as int),
        decreases v.len() - i,
    {
        push_char(&mut r, v[i]);
        proof {
            assert(r@ =~= v@.take(i + 1));
        }
        i += 1;
    }
    proof {
        assert(r@ =~= v@);
    }
    r
}

/// Copies `v[lo..hi]` into a fresh vector.
pub fn sub_vec(v: &Vec<char>, lo: usize, hi: usize) -> (r: Vec<char>)
    requires
        lo <= hi <= v@.len(),
    ensures
        r@ == v@.subrange(lo as int, hi as int),
{
    let mut r: Vec<char> = Vec::new();
    let mut i: usize = lo;
    while i < hi
        invariant
            lo <= i <= hi <= v@.len(),
            r@ == v@.subrange(lo as int, i as int),
        decreases hi - i,
    {
        r.push(v[i]);
        proof {
            assert(r@ =~= v@.subrange(lo as int, i as int + 1));
        }
        i += 1;
    }
    r
}

/// Whether two character vectors hold the same characters.
pub fn chars_eq(a: &Vec<char>, b: &[char]) -> (r: bool)
    ensures
        r == (a@ == b@),
{
    if a.len() != b.len() {
        proof {
            assert(a@.len() != b@.len());
        }
        return false;
    }
    let mut i: usize = 0;
    while i < a.len()
        invariant
            i <= a.len(),
            a@.len() == b@.len(),
            forall|j: int| 0 <= j < i ==> a@[j] == b@[j],
        decreases a.len() - i,
    {
        if a[i] != b[i] {
            return false;
        }
        i += 1;
    }
    proof {
        assert(a@ =~= b@);
    }
    true
}

/// First index at or after `i` that does not hold a space character.
pub open spec fn trim_start_idx(s: Seq<char>, i: int) -> int
    decreases s.len() - i,
    when 0 <= i <= s.len()
{
    if i < s.len() && is_space(s[i]) {
        trim_start_idx(s, i + 1)
    } else {
        i
    }
}

/// Last bound `j <= i` such that `s[j - 1]` is not a space character.
pub open spec fn trim_end_idx(s: Seq<char>, i: int) -> int
    decreases i,
    when 0 <= i <= s.len()
{
    if i > 0 && is_space(s[i - 1]) {
        trim_end_idx(s, i - 1)
    } else {
        i
    }
}

/// `s` without its leading and trailing space characters.
pub open spec fn spec_trim(s: Seq<char>) -> Seq<char> {
    let lo = trim_start_idx(s, 0);
    let hi = trim_end_idx(s, s.len() as int);
    if lo <= hi {
        s.subrange(lo, hi)
    } else {
        Seq::empty()
    }
}

/// Executable mirror of [`spec_trim`].
pub fn trim(v: &Vec<char>) -> (r: Vec<char>)
    ensures
        r@ == spec_trim(v@),
{
    let mut lo: usize = 0;
    while lo < v.len() && space_char(v[lo])
        invariant
            0 <= lo <= v@.len(),
            trim_start_idx(v@, 0) == trim_start_idx(v@, lo as int),
        decreases v.len() - lo,
    {
        lo += 1;
    }
    let mut hi: usize = v.len();
    while hi > 0 && space_char(v[hi - 1])
        invariant
            0 <= hi <= v@.len(),
            trim_end_idx(v@, v@.len() as int) == trim_end_idx(v@, hi as int),
        decreases hi,
    {
        hi -= 1;
    }
    if lo <= hi {
        sub_vec(v, lo, hi)
    } else {
        Vec::new()
    }
}

/// The escape table for double-quoted values: `\"`, `\\`, `\/` keep the
/// escaped character, `\n`, `\r`, `\t` become control characters, and any
/// other escape is preserved as the two literal characters.
pub open spec fn spec_unescape(s: Seq<char>) -> Seq<char>
    decreases s.len(),
{
    if s.len() == 0 {
        Seq::empty()
    } else if s[0] == '\\' {
        if s.len() == 1 {
            seq!['\\']
        } else {
            let c = s[1];
            let rest = spec_unescape(s.skip(2));
            if c == '"' || c == '\\' || c == '/' {
                seq![c] + rest
            } else if c == 'n' {
                seq!['\n'] + rest
            } else if c == 'r' {
                seq!['\r'] + rest
            } else if c == 't' {
                seq!['\t'] + rest
            } else {
                seq!['\\', c] + rest
            }
        }
    } else {
        seq![s[0]] + spec_unescape(s.skip(1))
    }
}

/// Whether every backslash in `s` begins a two-character escape that lies
/// wholly inside `s`.
pub open spec fn escapes_closed(s: Seq<char>) -> bool
    decreases s.len(),
{
    if s.len() == 0 {
        true
    } else if s[0] == '\\' {
        s.len() >= 2 && escapes_closed(s.skip(2))
    } else {
        escapes_closed(s.skip(1))
    }
}

/// Unescaping distributes over concatenation at any escape-closed split.
pub proof fn lemma_unescape_append(a: Seq<char>, b: Seq<char>)
    requires
        escapes_closed(a),
    ensures
        spec_unescape(a + b) == spec_unescape(a) + spec_unescape(b),
    decreases a.len(),
{
    if a.len() == 0 {
        assert(a + b =~= b);
        assert(spec_unescape(a) + spec_unescape(b) =~= spec_unescape(b));
    } else if a[0] == '\\' {
        let t = a + b;
        assert(t[0] == '\\');
        assert(t[1] == a[1]);
        assert(t.skip(2) =~= a.skip(2) + b);
        lemma_unescape_append(a.skip(2), b);
        assert(spec_unescape(a + b) =~= spec_unescape(a) + spec_unescape(b));
    } else {
        let t = a + b;
        assert(t[0] == a[0]);
        assert(t.skip(1) =~= a.skip(1) + b);
        lemma_unescape_append(a.skip(1), b);
        assert(spec_unescape(a + b) =~= spec_unescape(a) + spec_unescape(b));
    }
}

/// Executable mirror of [`spec_unescape`].
pub fn unescape(v: &Vec<char>) -> (r: Vec<char>)
    ensures
        r@ == spec_unescape(v@),
{
    let mut r: Vec<char> = Vec::new();
    let mut i: usize = 0;
    proof {
        assert(v@.skip(0) =~= v@);
        assert(Seq::<char>::empty() + spec_unescape(v@) =~= spec_unescape(v@));
    }
    while i < v.len()
        invariant
            0 <= i <= v@.len(),
            spec_unescape(v@) == r@ + spec_unescape(v@.skip(i as int)),
        decreases v.len() - i,
    {
        let ghost pre = v@.skip(i as int);
        let c = v[i];
        if c == '\\' && i + 1 < v.len() {
            let n = v[i + 1];
            proof {
                assert(pre.skip(2) =~= v@.skip(i + 2));
            }
            if n == '"' || n == '\\' || n == '/' {
                r.push(n);
            } else if n == 'n' {
                r.push('\n');
            } else if n == 'r' {
                r.push('\r');
            } else if n == 't' {
                r.push('\t');
            } else {
                r.push('\\');
                r.push(n);
            }
            i += 2;
        } else {
            if c == '\\' {
                r.push('\\');
                proof {
                    assert(v@.skip(i as int).len() == 1);
                }
            } else {
                r.push(c);
                proof {
                    assert(pre.skip(1) =~= v@.skip(i + 1));
                }
            }
            i += 1;
        }
    }
    proof {
        assert(v@.skip(v@.len() as int) =~= Seq::<char>::empty());
        assert(r@ =~= r@ + spec_unescape(v@.skip(v@.len() as int)));
    }
    r
}

/// First index at or after `i` where `c` occurs in `s`.
pub open spec fn spec_find(s: Seq<char>, i: int, c: char) -> Option<int>
    decreases s.len() - i,
    when 0 <= i <= s.len()
{
    if i >= s.len() {
        None
    } else if s[i] == c {
        Some(i)
    } else {
        spec_find(s, i + 1, c)
    }
}

pub proof fn lemma_find(s: Seq<char>, i: int, c: char)
    requires
        0 <= i <= s.len(),
    ensures
        match spec_find(s, i, c) {
            Some(j) => i <= j < s.len() && s[j] == c && forall|k: int|
                i <= k < j ==> s[k] != c,
            None => forall|k: int| i <= k < s.len() ==> s[k] != c,
        },
    decreases s.len() - i,
{
    if i < s.len() && s[i] != c {
        lemma_find(s, i + 1, c);
    }
}

/// Executable mirror of [`spec_find`].
pub fn find_char(v: &Vec<char>, from: usize, c: char) -> (r: Option<usize>)
    requires
        from <= v@.len(),
    ensures
        match r {
            Some(j) => spec_find(v@, from as int, c) == Some(j as int) && from <= j < v@.len(),
            None => spec_find(v@, from as int, c) is None,
        },
{
    let mut i: usize = from;
    while i < v.len()
        invariant
            from <= i <= v@.len(),
            spec_find(v@, from as int, c) == spec_find(v@, i as int, c),
        decreases v.len() - i,
    {
        if v[i] == c {
            return Some(i);
        }
        i += 1;
    }
    None
}

/// First index at or after `i` where the scheme separator `://` begins.
pub open spec fn spec_scheme_sep(s: Seq<char>, i: int) -> Option<int>
    decreases s.len() - i,
    when 0 <= i <= s.len()
{
    if i >= s.len() {
        None
    } else if s[i] == ':' && i + 2 < s.len() && s[i + 1] == '/' && s[i + 2] == '/' {
        Some(i)
    } else {
        spec_scheme_sep(s, i + 1)
    }
}

/// Whether `s` holds a `://` scheme separator anywhere.
pub open spec fn has_scheme(s: Seq<char>) -> bool {
    spec_scheme_sep(s, 0) is Some
}

/// Executable mirror of [`spec_scheme_sep`] at the start of the text.
pub fn scheme_sep(v: &Vec<char>) -> (r: Option<usize>)
    ensures
        match r {
            Some(j) => spec_scheme_sep(v@, 0) == Some(j as int) && j + 2 < v@.len(),
            None => spec_scheme_sep(v@, 0) is None,
        },
{
    let mut i: usize = 0;
    while i < v.len()
        invariant
            0 <= i <= v@.len(),
            spec_scheme_sep(v@, 0) == spec_scheme_sep(v@, i as int),
        decreases v.len() - i,
    {
        if v[i] == ':' && v.len() - i > 2 && v[i + 1] == '/' && v[i + 2] == '/' {
            return Some(i);
        }
        i += 1;
    }
    None
}

/// ASCII uppercase letters mapped to lowercase; everything else unchanged.
pub open spec fn lower_char(c: char) -> char {
    if c == 'A' {
        'a'
    } else if c == 'B' {
        'b'
    } else if c == 'C' {
        'c'
    } else if c == 'D' {
        'd'
    } else if c == 'E' {
        'e'
    } else if c == 'F' {
        'f'
    } else if c == 'G' {
        'g'
    } else if c == 'H' {
        'h'
    } else if c == 'I' {
        'i'
    } else if c == 'J' {
        'j'
    } else if c == 'K' {
        'k'
    } else if c == 'L' {
        'l'
    } else if c == 'M' {
        'm'
    } else if c == 'N' {
        'n'
    } else if c == 'O' {
        'o'
    } else if c == 'P' {
        'p'
    } else if c == 'Q' {
        'q'
    } else if c == 'R' {
        'r'
    } else if c == 'S' {
        's'
    } else if c == 'T' {
        't'
    } else if c == 'U' {
        'u'
    } else if c == 'V' {
        'v'
    } else if c == 'W' {
        'w'
    } else if c == 'X' {
        'x'
    } else if c == 'Y' {
        'y'
    } else if c == 'Z' {
        'z'
    } else {
        c
    }
}

/// Character-wise ASCII lowercasing.
pub open spec fn lower_seq(s: Seq<char>) -> Seq<char> {
    Seq::new(s.len(), |i: int| lower_char(s[i]))
}

/// Executable mirror of [`lower_seq`].
pub fn lower_chars(v: &Vec<char>) -> (r: Vec<char>)
    ensures
        r@ == lower_seq(v@),
{
    let mut r: Vec<char> = Vec::new();
    let mut i: usize = 0;
    while i < v.len()
        invariant
            0 <= i <= v@.len(),
            r@.len() == i,
            forall|j: int| 0 <= j < i ==> r@[j] == lower_char(v@[j]),
        decreases v.len() - i,
    {
        let c = v[i];
        let l = match c {
            'A' => 'a',
            'B' => 'b',
            'C' => 'c',
            'D' => 'd',
            'E' => 'e',
            'F' => 'f',
            'G' => 'g',
            'H' => 'h',
            'I' => 'i',
            'J' => 'j',
            'K' => 'k',
            'L' => 'l',
            'M' => 'm',
            'N' => 'n',
            'O' => 'o',
            'P' => 'p',
            'Q' => 'q',
            'R' => 'r',
            'S' => 's',
            'T' => 't',
            'U' => 'u',
            'V' => 'v',
            'W' => 'w',
            'X' => 'x',
            'Y' => 'y',
            'Z' => 'z',
            _ => c,
        };
        proof {
            assert(l == lower_char(v@[i as int]));
        }
        r.push(l);
        i += 1;
    }
    proof {
        assert(r@ =~= lower_seq(v@));
    }
    r
}

/// One layer of matching surrounding quotes, stripped; anything else is
/// returned unchanged.
pub open spec fn spec_remove_quote(s: Seq<char>) -> Seq<char> {
    if s.len() >= 2 && ((s[0] == '\'' && s[s.len() - 1] == '\'') || (s[0] == '"' && s[s.len()
        - 1] == '"')) {
        s.subrange(1, s.len() - 1)
    } else {
        s
    }
}

/// Executable mirror of [`spec_remove_quote`] over character vectors.
pub fn remove_quote(v: &Vec<char>) -> (r: Vec<char>)
    ensures
        r@ == spec_remove_quote(v@),
{
    if v.len() >= 2 {
        let first = v[0];
        let last = v[v.len() - 1];
        if (first == '\'' && last == '\'') || (first == '"' && last == '"') {
            return sub_vec(v, 1, v.len() - 1);
        }
    }
    let mut r: Vec<char> = Vec::new();
    let mut i: usize = 0;
    while i < v.len()
        invariant
            i <= v.len(),
            r@ == v@.take(i as int),
        decreases v.len() - i,
    {
        r.push(v[i]);
        proof {
            assert(r@ =~= v@.take(i + 1));
        }
        i += 1;
    }
    proof {
        assert(r@ =~= v@);
    }
    r
}

} // verus!
