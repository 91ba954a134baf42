//! A header map with unique, case-normalized names and overwrite-on-insert
//! semantics, modeled as a `Map<Seq<char>, Seq<char>>`.
use vstd::prelude::*;
use crate::method::is_tchar;
use crate::text::lower_seq;

verus! {

/// A non-empty sequence of HTTP token characters; header names are
/// validated against this before case normalization.
pub open spec fn valid_header_name(s: Seq<char>) -> bool {
    s.len() > 0 && forall|i: int| 0 <= i < s.len() ==> is_tchar(s[i])
}

/// Characters allowed in a header value: everything except control
/// characters other than horizontal tab.
pub open spec fn is_value_char(c: char) -> bool {
    c == '\t' || (32 <= c as u32 && c as u32 != 127)
}

/// Executable mirror of [`is_value_char`].
pub fn value_char(c: char) -> (r: bool)
    ensures
        r == is_value_char(c),
{
    let u = c as u32;
    c == '\t' || (32 <= u && u != 127)
}

/// A header value may be empty, but every character must be allowed.
pub open spec fn valid_header_value(s: Seq<char>) -> bool {
    forall|i: int| 0 <= i < s.len() ==> is_value_char(s[i])
}

/// Validates a candidate header name.
pub fn check_header_name(v: &Vec<char>) -> (r: bool)
    ensures
        r == valid_header_name(v@),
{
    if v.len() == 0 {
        return false;
    }
    let mut i: usize = 0;
    while i < v.len()
        invariant
            0 <= i <= v@.len(),
            forall|j: int| 0 <= j < i ==> is_tchar(v@[j]),
        decreases v.len() - i,
    {
        if !crate::method::tchar(v[i]) {
            return false;
        }
        i += 1;
    }
    true
}

/// Validates a candidate header value.
pub fn check_header_value(v: &Vec<char>) -> (r: bool)
    ensures
        r == valid_header_value(v@),
{
    let mut i: usize = 0;
    while i < v.len()
        invariant
            0 <= i <= v@.len(),
            forall|j: int| 0 <= j < i ==> is_value_char(v@[j]),
        decreases v.len() - i,
    {
        if !value_char(v[i]) {
            return false;
        }
        i += 1;
    }
    true
}

/// A mapping from header name to header value.  Names are unique; inserting
/// a name already present overwrites the prior value.
#[derive(Debug, Clone)]
pub struct HeaderMap {
    entries: Vec<(String, String)>,
}

impl View for HeaderMap {
    type V = Map<Seq<char>, Seq<char>>;

    closed spec fn view(&self) -> Map<Seq<char>, Seq<char>> {
        Map::new(
            |k: Seq<char>|
                exists|i: int| 0 <= i < self.entries@.len() && self.entries@[i].0@ == k,
            |k: Seq<char>|
                {
                    let i = choose|i: int|
                        0 <= i < self.entries@.len() && self.entries@[i].0@ == k;
                    self.entries@[i].1@
                },
        )
    }
}

impl HeaderMap {
    /// No two entries share a name.
    pub closed spec fn wf(self) -> bool {
        forall|i: int, j: int|
            0 <= i < j < self.entries@.len() ==> self.entries@[i].0@ != self.entries@[j].0@
    }

    /// The entry at a position is what the map holds for its name.
    proof fn lemma_view_entry(self, i: int)
        requires
            self.wf(),
            0 <= i < self.entries@.len(),
        ensures
            self@.contains_key(self.entries@[i].0@),
            self@[self.entries@[i].0@] == self.entries@[i].1@,
    {
        let k = self.entries@[i].0@;
        assert(0 <= i < self.entries@.len() && self.entries@[i].0@ == k);
        let j = choose|j: int| 0 <= j < self.entries@.len() && self.entries@[j].0@ == k;
        if i != j {
            assert(false);
        }
    }

    /// A name held by no entry is absent from the map.
    proof fn lemma_view_absent(self, k: Seq<char>)
        requires
            forall|i: int| 0 <= i < self.entries@.len() ==> self.entries@[i].0@ != k,
        ensures
            !self@.contains_key(k),
    {
    }

    /// The empty header map.
    pub fn new() -> (r: HeaderMap)
        ensures
            r.wf(),
            r@ == Map::<Seq<char>, Seq<char>>::empty(),
    {
        let r = HeaderMap { entries: Vec::new() };
        proof {
            assert(r@ =~= Map::<Seq<char>, Seq<char>>::empty());
        }
        r
    }

    /// Inserts a header, overwriting any prior value under the same name.
    pub fn insert(&mut self, name: String, value: String)
        requires
            old(self).wf(),
        ensures
            final(self).wf(),
            final(self)@ == old(self)@.insert(name@, value@),
    {
        let ghost orig = *self;
        let mut i: usize = 0;
        while i < self.entries.len()
            invariant
                orig == *old(self),
                orig.wf(),
                *self == orig,
                0 <= i <= self.entries@.len(),
                forall|j: int| 0 <= j < i ==> self.entries@[j].0@ != name@,
            decreases self.entries.len() - i,
    {
            if self.entries[i].0.eq(&name) {
                let ghost idx = i as int;
                self.entries[i] = (name, value);
                proof {
                    assert(self.entries@ =~= orig.entries@.update(
                        idx,
                        (self.entries@[idx].0, self.entries@[idx].1),
                    ));
                    assert(orig.entries@[idx].0@ == name@);
                    assert forall|a: int, b: int|
                        0 <= a < b < self.entries@.len() implies self.entries@[a].0@
                        != self.entries@[b].0@ by {
                        if a == idx {
                            assert(orig.entries@[b].0@ != orig.entries@[idx].0@);
                        } else if b == idx {
                            assert(orig.entries@[a].0@ != orig.entries@[idx].0@);
                        } else {
                            assert(orig.entries@[a].0@ != orig.entries@[b].0@);
                        }
                    }
                    let m1 = self@;
                    let m2 = orig@.insert(self.entries@[idx].0@, self.entries@[idx].1@);
                    assert forall|k: Seq<char>| #[trigger] m1.contains_key(k) implies
                        m2.contains_key(k) by {
                        let w = choose|w: int|
                            0 <= w < self.entries@.len() && self.entries@[w].0@ == k;
                        assert(orig.entries@[w].0@ == k || k == self.entries@[idx].0@);
                    }
                    assert forall|k: Seq<char>| #[trigger] m2.contains_key(k) implies
                        m1.contains_key(k) by {
                        if k == self.entries@[idx].0@ {
                            assert(self.entries@[idx].0@ == k);
                        } else {
                            let w = choose|w: int|
                                0 <= w < orig.entries@.len() && orig.entries@[w].0@ == k;
                            assert(self.entries@[w].0@ == k);
                        }
                    }
                    assert forall|k: Seq<char>| m1.contains_key(k) implies m1[k] == m2[k] by {
                        let w = choose|w: int|
                            0 <= w < self.entries@.len() && self.entries@[w].0@ == k;
                        self.lemma_view_entry(w);
                        if k == self.entries@[idx].0@ {
                            if w != idx {
                                assert(self.entries@[w].0@ == self.entries@[idx].0@);
                                assert(false);
                            }
                        } else {
                            assert(orig.entries@[w].0@ == k);
                            orig.lemma_view_entry(w);
                        }
                    }
                    assert(m1 =~= m2);
                }
                return;
            }
            i += 1;
        }
        proof {
            self.lemma_view_absent(name@);
        }
        let ghost pre = *self;
        self.entries.push((name, value));
        proof {
            let n = pre.entries@.len() as int;
            assert(self.entries@ =~= pre.entries@.push((self.entries@[n].0, self.entries@[n].1)));
            assert forall|a: int, b: int|
                0 <= a < b < self.entries@.len() implies self.entries@[a].0@
                != self.entries@[b].0@ by {
                if b < n {
                    assert(pre.entries@[a].0@ != pre.entries@[b].0@);
                } else {
                    assert(pre.entries@[a].0@ != self.entries@[n].0@);
                }
            }
            let m1 = self@;
            let m2 = pre@.insert(self.entries@[n].0@, self.entries@[n].1@);
            assert forall|k: Seq<char>| #[trigger] m1.contains_key(k) implies m2.contains_key(
                k,
            ) by {
                let w = choose|w: int|
                    0 <= w < self.entries@.len() && self.entries@[w].0@ == k;
                if w < n {
                    assert(pre.entries@[w].0@ == k);
                }
            }
            assert forall|k: Seq<char>| #[trigger] m2.contains_key(k) implies m1.contains_key(
                k,
            ) by {
                if k == self.entries@[n].0@ {
                    assert(self.entries@[n].0@ == k);
                } else {
                    let w = choose|w: int|
                        0 <= w < pre.entries@.len() && pre.entries@[w].0@ == k;
                    assert(self.entries@[w].0@ == k);
                }
            }
            assert forall|k: Seq<char>| m1.contains_key(k) implies m1[k] == m2[k] by {
                let w = choose|w: int|
                    0 <= w < self.entries@.len() && self.entries@[w].0@ == k;
                self.lemma_view_entry(w);
                if k == self.entries@[n].0@ {
                    if w != n {
                        assert(self.entries@[w].0@ == self.entries@[n].0@);
                        assert(false);
                    }
                } else {
                    assert(w < n);
                    assert(pre.entries@[w].0@ == k);
                    pre.lemma_view_entry(w);
                }
            }
            assert(m1 =~= m2);
        }
    }

    /// Looks a name up exactly as given, with no case normalization.
    pub fn get_exact(&self, name: &String) -> (r: Option<&String>)
        requires
            self.wf(),
        ensures
            match r {
                Some(v) => self@.contains_key(name@) && v@ == self@[name@],
                None => !self@.contains_key(name@),
            },
    {
        let mut i: usize = 0;
        while i < self.entries.len()
            invariant
                self.wf(),
                0 <= i <= self.entries@.len(),
                forall|j: int| 0 <= j < i ==> self.entries@[j].0@ != name@,
            decreases self.entries.len() - i,
        {
            if self.entries[i].0.eq(name) {
                proof {
                    self.lemma_view_entry(i as int);
                }
                return Some(&self.entries[i].1);
            }
            i += 1;
        }
        proof {
            self.lemma_view_absent(name@);
        }
        None
    }

    /// Whether a name, exactly as given, is present.
    pub fn contains_exact(&self, name: &String) -> (r: bool)
        requires
            self.wf(),
        ensures
            r == self@.contains_key(name@),
    {
        self.get_exact(name).is_some()
    }

    /// The entries as name-value pairs: one pair per name the map holds,
    /// each carrying the mapped value.
    pub fn to_vec(&self) -> (r: Vec<(String, String)>)
        requires
            self.wf(),
        ensures
            forall|i: int|
                0 <= i < r@.len() ==> #[trigger] self@.contains_key(r@[i].0@) && self@[r@[i].0@]
                    == r@[i].1@,
            forall|k: Seq<char>|
                self@.contains_key(k) ==> exists|i: int| 0 <= i < r@.len() && #[trigger] r@[i].0@
                    == k,
    {
        let mut r: Vec<(String, String)> = Vec::new();
        let mut i: usize = 0;
        while i < self.entries.len()
            invariant
                self.wf(),
                0 <= i <= self.entries@.len(),
                r@.len() == i,
                forall|j: int| 0 <= j < i ==> r@[j].0@ == self.entries@[j].0@ && r@[j].1@
                    == self.entries@[j].1@,
            decreases self.entries.len() - i,
        {
            let name = self.entries[i].0.clone();
            let value = self.entries[i].1.clone();
            r.push((name, value));
            i += 1;
        }
        proof {
            assert forall|j: int|
                0 <= j < r@.len() implies #[trigger] self@.contains_key(r@[j].0@) && self@[r@[j].0@]
                == r@[j].1@ by {
                self.lemma_view_entry(j);
            }
            assert forall|k: Seq<char>| self@.contains_key(k) implies exists|j: int|
                0 <= j < r@.len() && #[trigger] r@[j].0@ == k by {
                let w = choose|w: int|
                    0 <= w < self.entries@.len() && self.entries@[w].0@ == k;
                assert(r@[w].0@ == k);
            }
        }
        r
    }

    /// Case-insensitive lookup: the stored names are already lowercase, so
    /// the query is lowercased before the exact search.
    pub fn get(&self, name: &str) -> (r: Option<&String>)
        requires
            self.wf(),
        ensures
            match r {
                Some(v) => self@.contains_key(lower_seq(name@)) && v@ == self@[lower_seq(name@)],
                None => !self@.contains_key(lower_seq(name@)),
            },
    {
        let chars = crate::text::chars_vec(name);
        let lowered = crate::text::lower_chars(&chars);
        let key = crate::text::string_from_chars(&lowered);
        self.get_exact(&key)
    }
}

} // verus!
