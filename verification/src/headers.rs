//! The header map: name-to-value pairs whose names compare without regard to
//! ASCII case, while the first inserted spelling of a name is the one kept
//! for serialization.

use vstd::prelude::*;

verus! {

use vstd::string::StringSliceAdditionalSpecFns;
use vstd::string::StringExecFns;
use crate::text::{fold, fold_vec, string_bytes, str_to_bytes, bytes_eq, extend_bytes, extend_str};

/// A header name; equality disregards ASCII case.
#[derive(Debug, Clone)]
pub struct CaseInsensitiveString(pub String);

impl PartialEq for CaseInsensitiveString {
    fn eq(&self, other: &Self) -> (r: bool)
        ensures
            r == (fold(string_bytes(self.0)) == fold(string_bytes(other.0))),
    {
        let a = fold_vec(&str_to_bytes(self.0.as_str()));
        let b = fold_vec(&str_to_bytes(other.0.as_str()));
        bytes_eq(&a, &b)
    }
}

impl vstd::std_specs::cmp::PartialEqSpecImpl for CaseInsensitiveString {
    open spec fn obeys_eq_spec() -> bool {
        true
    }

    open spec fn eq_spec(&self, other: &Self) -> bool {
        fold(string_bytes(self.0)) == fold(string_bytes(other.0))
    }
}

impl Eq for CaseInsensitiveString {

}

/// One entry of the view: the stored name and the value, both as bytes.
pub type HeaderPair = (Seq<u8>, Seq<u8>);

/// Index of the first entry whose folded name equals the folded key.
pub open spec fn key_index(s: Seq<HeaderPair>, k: Seq<u8>) -> Option<int>
    decreases s.len(),
{
    if s.len() == 0 {
        None
    } else if fold(s[0].0) == fold(k) {
        Some(0int)
    } else {
        match key_index(s.drop_first(), k) {
            Some(i) => Some(i + 1),
            None => None,
        }
    }
}

/// `key_index` finds the least match, and `None` means there is none.
pub proof fn lemma_key_index(s: Seq<HeaderPair>, k: Seq<u8>)
    ensures
        match key_index(s, k) {
            Some(i) => 0 <= i < s.len() && fold(s[i].0) == fold(k) && forall|j: int|
                0 <= j < i ==> fold(#[trigger] s[j].0) != fold(k),
            None => forall|j: int| 0 <= j < s.len() ==> fold(#[trigger] s[j].0) != fold(k),
        },
    decreases s.len(),
{
    if s.len() == 0 {
    } else if fold(s[0].0) == fold(k) {
    } else {
        lemma_key_index(s.drop_first(), k);
        let t = s.drop_first();
        assert(forall|j: int| 1 <= j < s.len() ==> s[j] == t[j - 1]);
    }
}

/// The header map.
#[derive(Debug)]
pub struct Headers {
    entries: Vec<(String, String)>,
}

impl Clone for Headers {
    /// Clones the map; the copy has the same view.
    fn clone(&self) -> (r: Self)
        ensures
            r.view_seq() == self.view_seq(),
            self.wf() ==> r.wf(),
    {
        let mut entries: Vec<(String, String)> = Vec::new();
        let mut i: usize = 0;
        while i < self.entries.len()
            invariant
                i <= self.entries@.len(),
                entries@ == self.entries@.subrange(0, i as int),
            decreases self.entries.len() - i,
        {
            entries.push((self.entries[i].0.clone(), self.entries[i].1.clone()));
            i = i + 1;
            proof {
                assert(entries@ =~= self.entries@.subrange(0, i as int));
            }
        }
        proof {
            assert(entries@ =~= self.entries@);
        }
        let r = Headers { entries };
        proof {
            assert(r.view_seq() =~= self.view_seq());
        }
        r
    }
}

impl Headers {
    /// The entries, in insertion order, as byte pairs.
    pub closed spec fn view_seq(&self) -> Seq<HeaderPair> {
        self.entries@.map_values(|p: (String, String)| (string_bytes(p.0), string_bytes(p.1)))
    }

    /// Well-formed: no two entries share a folded name.
    pub closed spec fn wf(&self) -> bool {
        forall|i: int, j: int|
            0 <= i < j < self.view_seq().len() ==> fold(#[trigger] self.view_seq()[i].0) != fold(
                #[trigger] self.view_seq()[j].0,
            )
    }

    /// True when some entry's name folds to the folded key.
    pub open spec fn contains_key(&self, k: Seq<u8>) -> bool {
        key_index(self.view_seq(), k) is Some
    }

    /// The value stored under the key, when present.
    pub open spec fn lookup(&self, k: Seq<u8>) -> Seq<u8>
        recommends
            self.contains_key(k),
    {
        self.view_seq()[key_index(self.view_seq(), k)->Some_0].1
    }

    /// An empty map.
    pub fn new() -> (r: Headers)
        ensures
            r.wf(),
            r.view_seq() == Seq::<HeaderPair>::empty(),
    {
        Headers { entries: Vec::new() }
    }

    /// Index of the entry matching `key`, if any.
    fn find_idx(&self, key: &str) -> (r: Option<usize>)
        ensures
            match r {
                Some(i) => key_index(self.view_seq(), key.spec_bytes()) == Some(i as int),
                None => key_index(self.view_seq(), key.spec_bytes()) is None,
            },
    {
        let fk = fold_vec(&str_to_bytes(key));
        let mut i: usize = 0;
        proof {
            lemma_key_index(self.view_seq(), key.spec_bytes());
        }
        while i < self.entries.len()
            invariant
                i <= self.entries@.len(),
                fk@ == fold(key.spec_bytes()),
                forall|j: int|
                    0 <= j < i ==> fold(#[trigger] self.view_seq()[j].0) != fold(
                        key.spec_bytes(),
                    ),
            decreases self.entries.len() - i,
        {
            let name = fold_vec(&str_to_bytes(self.entries[i].0.as_str()));
            if bytes_eq(&name, &fk) {
                proof {
                    lemma_key_index(self.view_seq(), key.spec_bytes());
                    assert(fold(self.view_seq()[i as int].0) == fold(key.spec_bytes()));
                    match key_index(self.view_seq(), key.spec_bytes()) {
                        Some(x) => {
                            if x < i {
                                assert(fold(self.view_seq()[x].0) != fold(key.spec_bytes()));
                            }
                            if x > i {
                                assert(fold(self.view_seq()[i as int].0) != fold(
                                    key.spec_bytes(),
                                ));
                            }
                        },
                        None => {
                            assert(fold(self.view_seq()[i as int].0) != fold(key.spec_bytes()));
                        },
                    }
                }
                return Some(i);
            }
            i = i + 1;
        }
        proof {
            lemma_key_index(self.view_seq(), key.spec_bytes());
            if key_index(self.view_seq(), key.spec_bytes()) is Some {
                let x = key_index(self.view_seq(), key.spec_bytes())->Some_0;
                assert(fold(self.view_seq()[x].0) != fold(key.spec_bytes()));
            }
        }
        None
    }

    /// Inserts a pair.  An entry whose name matches keeps its stored spelling
    /// and gets the new value; otherwise the pair is appended.
    pub fn insert(&mut self, key: &str, value: &str)
        requires
            old(self).wf(),
        ensures
            final(self).wf(),
            match key_index(old(self).view_seq(), key.spec_bytes()) {
                Some(i) => final(self).view_seq() == old(self).view_seq().update(
                    i,
                    (old(self).view_seq()[i].0, value.spec_bytes()),
                ),
                None => final(self).view_seq() == old(self).view_seq().push(
                    (key.spec_bytes(), value.spec_bytes()),
                ),
            },
    {
        let idx = self.find_idx(key);
        match idx {
            Some(i) => {
                proof {
                    lemma_key_index(self.view_seq(), key.spec_bytes());
                }
                let (k0, _old_v) = self.entries.remove(i);
                self.entries.insert(i, (k0, String::from_str(value)));
                proof {
                    let ghost ov = old(self).view_seq();
                    assert(final(self).view_seq() =~= ov.update(
                        i as int,
                        (ov[i as int].0, value.spec_bytes()),
                    ));
                    assert forall|a: int, b: int|
                        0 <= a < b < final(self).view_seq().len() implies fold(
                        #[trigger] final(self).view_seq()[a].0,
                    ) != fold(#[trigger] final(self).view_seq()[b].0) by {
                        assert(final(self).view_seq()[a].0 == ov[a].0);
                        assert(final(self).view_seq()[b].0 == ov[b].0);
                    }
                }
            },
            None => {
                proof {
                    lemma_key_index(self.view_seq(), key.spec_bytes());
                }
                self.entries.push((String::from_str(key), String::from_str(value)));
                proof {
                    let ghost ov = old(self).view_seq();
                    assert(final(self).view_seq() =~= ov.push(
                        (key.spec_bytes(), value.spec_bytes()),
                    ));
                    assert forall|a: int, b: int|
                        0 <= a < b < final(self).view_seq().len() implies fold(
                        #[trigger] final(self).view_seq()[a].0,
                    ) != fold(#[trigger] final(self).view_seq()[b].0) by {
                        if b < ov.len() {
                            assert(final(self).view_seq()[a].0 == ov[a].0);
                            assert(final(self).view_seq()[b].0 == ov[b].0);
                        } else {
                            assert(final(self).view_seq()[b].0 == key.spec_bytes());
                            assert(final(self).view_seq()[a].0 == ov[a].0);
                            assert(fold(ov[a].0) != fold(key.spec_bytes()));
                        }
                    }
                }
            },
        }
    }

    /// Looks a name up, disregarding ASCII case on both sides.
    pub fn get(&self, key: &str) -> (r: Option<&String>)
        ensures
            match r {
                Some(v) => self.contains_key(key.spec_bytes()) && string_bytes(*v)
                    == self.lookup(key.spec_bytes()),
                None => !self.contains_key(key.spec_bytes()),
            },
    {
        let idx = self.find_idx(key);
        match idx {
            Some(i) => {
                proof {
                    lemma_key_index(self.view_seq(), key.spec_bytes());
                }
                Some(&self.entries[i].1)
            },
            None => None,
        }
    }

    /// Number of entries.
    pub fn len(&self) -> (r: usize)
        ensures
            r == self.view_seq().len(),
    {
        self.entries.len()
    }

    /// True when the map has no entry.
    pub fn is_empty(&self) -> (r: bool)
        ensures
            r == (self.view_seq().len() == 0),
    {
        self.entries.is_empty()
    }

    /// Inserts the pair only when no entry matches the name.
    pub fn entry(&mut self, key: &str, value: &str)
        requires
            old(self).wf(),
        ensures
            final(self).wf(),
            match key_index(old(self).view_seq(), key.spec_bytes()) {
                Some(_) => final(self).view_seq() == old(self).view_seq(),
                None => final(self).view_seq() == old(self).view_seq().push(
                    (key.spec_bytes(), value.spec_bytes()),
                ),
            },
    {
        let idx = self.find_idx(key);
        match idx {
            Some(_) => (),
            None => {
                proof {
                    lemma_key_index(self.view_seq(), key.spec_bytes());
                }
                self.entries.push((String::from_str(key), String::from_str(value)));
                proof {
                    let ghost ov = old(self).view_seq();
                    assert(final(self).view_seq() =~= ov.push(
                        (key.spec_bytes(), value.spec_bytes()),
                    ));
                    assert forall|a: int, b: int|
                        0 <= a < b < final(self).view_seq().len() implies fold(
                        #[trigger] final(self).view_seq()[a].0,
                    ) != fold(#[trigger] final(self).view_seq()[b].0) by {
                        if b < ov.len() {
                            assert(final(self).view_seq()[a].0 == ov[a].0);
                            assert(final(self).view_seq()[b].0 == ov[b].0);
                        } else {
                            assert(final(self).view_seq()[b].0 == key.spec_bytes());
                            assert(final(self).view_seq()[a].0 == ov[a].0);
                            assert(fold(ov[a].0) != fold(key.spec_bytes()));
                        }
                    }
                }
            },
        }
    }

    /// Removes the entry matching the name and returns its value.
    pub fn remove(&mut self, key: &str) -> (r: Option<String>)
        requires
            old(self).wf(),
        ensures
            final(self).wf(),
            match key_index(old(self).view_seq(), key.spec_bytes()) {
                Some(i) => r matches Some(v) && string_bytes(v) == old(self).view_seq()[i].1
                    && final(self).view_seq() == old(self).view_seq().remove(i),
                None => r is None && final(self).view_seq() == old(self).view_seq(),
            },
    {
        let idx = self.find_idx(key);
        match idx {
            Some(i) => {
                proof {
                    lemma_key_index(self.view_seq(), key.spec_bytes());
                }
                let (_k, v) = self.entries.remove(i);
                proof {
                    let ghost ov = old(self).view_seq();
                    assert(final(self).view_seq() =~= ov.remove(i as int));
                    assert forall|a: int, b: int|
                        0 <= a < b < final(self).view_seq().len() implies fold(
                        #[trigger] final(self).view_seq()[a].0,
                    ) != fold(#[trigger] final(self).view_seq()[b].0) by {
                        let fa = if a < i { a } else { a + 1 };
                        let fb = if b < i { b } else { b + 1 };
                        assert(final(self).view_seq()[a].0 == ov[fa].0);
                        assert(final(self).view_seq()[b].0 == ov[fb].0);
                    }
                }
                Some(v)
            },
            None => None,
        }
    }

    /// The serialized header block: one `name: value` line per entry, each
    /// ended by CRLF, in insertion order.
    pub open spec fn header_block(s: Seq<HeaderPair>) -> Seq<u8>
        decreases s.len(),
    {
        if s.len() == 0 {
            Seq::<u8>::empty()
        } else {
            s[0].0 + ": ".spec_bytes() + s[0].1 + seq![13u8, 10u8] + Self::header_block(
                s.drop_first(),
            )
        }
    }

    /// Appends the serialized header block to `out`.
    pub fn append_block(&self, out: &mut Vec<u8>)
        ensures
            final(out)@ == old(out)@ + Self::header_block(self.view_seq()),
    {
        let n = self.entries.len();
        let mut i: usize = 0;
        proof {
            assert(self.view_seq().subrange(0, n as int) =~= self.view_seq());
        }
        while i < n
            invariant
                i <= n,
                n == self.entries@.len(),
                out@ + Self::header_block(self.view_seq().subrange(i as int, n as int)) == old(
                    out,
                )@ + Self::header_block(self.view_seq()),
            decreases n - i,
        {
            let ghost pre = out@;
            extend_str(out, self.entries[i].0.as_str());
            extend_str(out, ": ");
            extend_str(out, self.entries[i].1.as_str());
            out.push(13);
            out.push(10);
            proof {
                let vs = self.view_seq();
                let cur = vs.subrange(i as int, n as int);
                assert(cur.drop_first() =~= vs.subrange(i + 1, n as int));
                assert(cur[0] == vs[i as int]);
                assert(out@ =~= pre + cur[0].0 + ": ".spec_bytes() + cur[0].1 + seq![13u8, 10u8]);
                assert(out@ + Self::header_block(vs.subrange(i + 1, n as int)) =~= pre
                    + Self::header_block(cur));
            }
            i = i + 1;
        }
        proof {
            assert(self.view_seq().subrange(n as int, n as int).len() == 0);
            assert(out@ + Seq::<u8>::empty() =~= out@);
        }
    }
}

impl Headers {
    /// Well-formedness spelled out for callers: no two entries share a
    /// folded name.
    pub proof fn lemma_wf_distinct(&self)
        requires
            self.wf(),
        ensures
            forall|a: int, b: int|
                0 <= a < b < self.view_seq().len() ==> fold(
                    (#[trigger] self.view_seq()[a]).0,
                ) != fold((#[trigger] self.view_seq()[b]).0),
    {
    }

    /// Every stored name and value is valid UTF-8: they came from strings.
    pub proof fn lemma_view_valid(&self)
        ensures
            forall|i: int|
                0 <= i < self.view_seq().len() ==> vstd::utf8::valid_utf8(
                    (#[trigger] self.view_seq()[i]).0,
                ) && vstd::utf8::valid_utf8(self.view_seq()[i].1),
    {
        assert forall|i: int| 0 <= i < self.view_seq().len() implies vstd::utf8::valid_utf8(
            (#[trigger] self.view_seq()[i]).0,
        ) && vstd::utf8::valid_utf8(self.view_seq()[i].1) by {
            vstd::utf8::encode_utf8_valid_utf8(self.entries@[i].0@);
            vstd::utf8::encode_utf8_valid_utf8(self.entries@[i].1@);
        }
    }

    /// The serialized header block of valid entries is valid UTF-8.
    pub proof fn lemma_header_block_valid(s: Seq<HeaderPair>)
        requires
            forall|i: int|
                0 <= i < s.len() ==> vstd::utf8::valid_utf8((#[trigger] s[i]).0)
                    && vstd::utf8::valid_utf8(s[i].1),
        ensures
            vstd::utf8::valid_utf8(Self::header_block(s)),
        decreases s.len(),
    {
        if s.len() == 0 {
            assert(Self::header_block(s).len() == 0);
        } else {
            assert(s.drop_first().len() == s.len() - 1);
            assert(forall|i: int|
                0 <= i < s.drop_first().len() ==> (#[trigger] s.drop_first()[i]) == s[i + 1]);
            Self::lemma_header_block_valid(s.drop_first());
            vstd::utf8::encode_utf8_valid_utf8(": "@);
            lemma_crlf_valid();
            vstd::utf8::valid_utf8_concat(s[0].0, ": ".spec_bytes());
            vstd::utf8::valid_utf8_concat(s[0].0 + ": ".spec_bytes(), s[0].1);
            vstd::utf8::valid_utf8_concat(
                s[0].0 + ": ".spec_bytes() + s[0].1,
                seq![13u8, 10u8],
            );
            vstd::utf8::valid_utf8_concat(
                s[0].0 + ": ".spec_bytes() + s[0].1 + seq![13u8, 10u8],
                Self::header_block(s.drop_first()),
            );
        }
    }
}

/// The CRLF pair is valid UTF-8.
pub proof fn lemma_crlf_valid()
    ensures
        vstd::utf8::valid_utf8(seq![13u8, 10u8]),
{
    crate::text::lemma_ascii_valid_utf8(seq![13u8, 10u8]);
}

/// Looking a name up is insensitive to ASCII case: two keys with the same
/// folded bytes see the same presence and the same value, whatever the case
/// of the stored name.
pub proof fn lemma_get_case_insensitive(h: Headers, k1: Seq<u8>, k2: Seq<u8>)
    requires
        fold(k1) == fold(k2),
    ensures
        h.contains_key(k1) == h.contains_key(k2),
        h.contains_key(k1) ==> h.lookup(k1) == h.lookup(k2),
{
    lemma_key_index_fold(h.view_seq(), k1, k2);
}

/// `key_index` depends only on the folded key.
proof fn lemma_key_index_fold(s: Seq<HeaderPair>, k1: Seq<u8>, k2: Seq<u8>)
    requires
        fold(k1) == fold(k2),
    ensures
        key_index(s, k1) == key_index(s, k2),
    decreases s.len(),
{
    if s.len() == 0 {
    } else {
        lemma_key_index_fold(s.drop_first(), k1, k2);
    }
}

/// The value stored under the key, in a header sequence.
pub open spec fn lookup_of(s: Seq<HeaderPair>, k: Seq<u8>) -> Seq<u8>
    recommends
        key_index(s, k) is Some,
{
    s[key_index(s, k)->Some_0].1
}

/// `key_index` reads only the names, never the values.
pub proof fn lemma_key_index_names(s1: Seq<HeaderPair>, s2: Seq<HeaderPair>, k: Seq<u8>)
    requires
        s1.len() == s2.len(),
        forall|i: int| 0 <= i < s1.len() ==> fold((#[trigger] s1[i]).0) == fold(s2[i].0),
    ensures
        key_index(s1, k) == key_index(s2, k),
    decreases s1.len(),
{
    if s1.len() == 0 {
    } else {
        let t1 = s1.drop_first();
        let t2 = s2.drop_first();
        assert(forall|i: int| 0 <= i < t1.len() ==> (#[trigger] t1[i]) == s1[i + 1]);
        assert(forall|i: int| 0 <= i < t2.len() ==> (#[trigger] t2[i]) == s2[i + 1]);
        lemma_key_index_names(t1, t2, k);
    }
}

/// How `key_index` behaves when a pair is appended.
pub proof fn lemma_key_index_push(s: Seq<HeaderPair>, p: HeaderPair, k: Seq<u8>)
    ensures
        key_index(s, k) is Some ==> key_index(s.push(p), k) == key_index(s, k),
        key_index(s, k) is None && fold(p.0) == fold(k) ==> key_index(s.push(p), k) == Some(
            s.len() as int,
        ),
        key_index(s, k) is None && fold(p.0) != fold(k) ==> key_index(s.push(p), k) is None,
    decreases s.len(),
{
    if s.len() == 0 {
        assert(s.push(p)[0] == p);
        assert(s.push(p).drop_first() =~= Seq::<HeaderPair>::empty());
        assert(key_index(Seq::<HeaderPair>::empty(), k) is None);
        if fold(p.0) == fold(k) {
            assert(key_index(s.push(p), k) == Some(0int));
        } else {
            assert(key_index(s.push(p), k) == (match key_index(s.push(p).drop_first(), k) {
                Some(i) => Some(i + 1),
                None => None,
            }));
            assert(key_index(s.push(p), k) is None);
        }
    } else {
        assert(s.push(p)[0] == s[0]);
        assert(s.push(p).drop_first() =~= s.drop_first().push(p));
        lemma_key_index_push(s.drop_first(), p, k);
        if fold(s[0].0) != fold(k) {
            let t = s.drop_first();
            assert(t.len() == s.len() - 1);
            assert(key_index(s.push(p), k) == (match key_index(t.push(p), k) {
                Some(i) => Some(i + 1),
                None => None,
            }));
            assert(key_index(s, k) == (match key_index(t, k) {
                Some(i) => Some(i + 1),
                None => None,
            }));
            match key_index(t, k) {
                Some(i) => {
                    assert(key_index(t.push(p), k) == Some(i));
                    assert(key_index(s.push(p), k) == Some(i + 1));
                },
                None => {
                    if fold(p.0) == fold(k) {
                        assert(key_index(t.push(p), k) == Some(t.len() as int));
                        assert(key_index(s.push(p), k) == Some(s.len() as int));
                    } else {
                        assert(key_index(t.push(p), k) is None);
                        assert(key_index(s.push(p), k) is None);
                    }
                },
            }
        } else {
            assert(key_index(s.push(p), k) == Some(0int));
            assert(key_index(s, k) == Some(0int));
        }
    }
}

/// After an insertion, the inserted key is present and holds the new value.
pub proof fn lemma_hdr_insert_same(s: Seq<HeaderPair>, k: Seq<u8>, v: Seq<u8>)
    ensures
        key_index(crate::parser::hdr_insert(s, k, v), k) is Some,
        lookup_of(crate::parser::hdr_insert(s, k, v), k) == v,
{
    let r = crate::parser::hdr_insert(s, k, v);
    lemma_key_index(s, k);
    match key_index(s, k) {
        Some(i) => {
            assert(r =~= s.update(i, (s[i].0, v)));
            assert(forall|j: int| 0 <= j < s.len() ==> fold((#[trigger] s[j]).0) == fold(r[j].0));
            lemma_key_index_names(s, r, k);
        },
        None => {
            lemma_key_index_push(s, (k, v), k);
        },
    }
}

/// An insertion leaves every other name's presence and value unchanged.
pub proof fn lemma_hdr_insert_other(s: Seq<HeaderPair>, k: Seq<u8>, v: Seq<u8>, k2: Seq<u8>)
    requires
        fold(k2) != fold(k),
    ensures
        key_index(crate::parser::hdr_insert(s, k, v), k2) == key_index(s, k2),
        key_index(s, k2) is Some ==> lookup_of(crate::parser::hdr_insert(s, k, v), k2)
            == lookup_of(s, k2),
{
    let r = crate::parser::hdr_insert(s, k, v);
    lemma_key_index(s, k);
    lemma_key_index(s, k2);
    match key_index(s, k) {
        Some(i) => {
            assert(r =~= s.update(i, (s[i].0, v)));
            assert(forall|j: int| 0 <= j < s.len() ==> fold((#[trigger] s[j]).0) == fold(r[j].0));
            lemma_key_index_names(s, r, k2);
            if key_index(s, k2) is Some {
                let j = key_index(s, k2)->Some_0;
                assert(fold(s[j].0) == fold(k2));
                assert(fold(s[i].0) == fold(k));
                assert(j != i);
            }
        },
        None => {
            lemma_key_index_push(s, (k, v), k2);
            if key_index(s, k2) is Some {
                let j = key_index(s, k2)->Some_0;
                assert(r[j] == s[j]);
            }
        },
    }
}

} // verus!
