//! An in-memory byte cache with expiry timestamps.

use vstd::prelude::*;

verus! {

use vstd::string::StringSliceAdditionalSpecFns;
use vstd::string::StringExecFns;
use crate::text::{string_bytes, str_to_bytes, bytes_eq, subvec};

/// One cached entry of the view: the key, the data, and the moment (in
/// seconds since the epoch) the entry expires.
pub type CacheEntry = (Seq<u8>, (Seq<u8>, u64));

/// Index of the first entry with exactly this key.
pub open spec fn cache_index(s: Seq<CacheEntry>, k: Seq<u8>) -> Option<int>
    decreases s.len(),
{
    if s.len() == 0 {
        None
    } else if s[0].0 == k {
        Some(0int)
    } else {
        match cache_index(s.drop_first(), k) {
            Some(i) => Some(i + 1),
            None => None,
        }
    }
}

/// `cache_index` finds the least match, and `None` means there is none.
pub proof fn lemma_cache_index(s: Seq<CacheEntry>, k: Seq<u8>)
    ensures
        match cache_index(s, k) {
            Some(i) => 0 <= i < s.len() && s[i].0 == k && forall|j: int|
                0 <= j < i ==> (#[trigger] s[j]).0 != k,
            None => forall|j: int| 0 <= j < s.len() ==> (#[trigger] s[j]).0 != k,
        },
    decreases s.len(),
{
    if s.len() == 0 {
    } else if s[0].0 == k {
    } else {
        lemma_cache_index(s.drop_first(), k);
        let t = s.drop_first();
        assert(forall|j: int| 1 <= j < s.len() ==> s[j] == t[j - 1]);
    }
}

/// Relies on `std::time::SystemTime::now` and `duration_since`: the moment
/// of the call, in whole seconds since the Unix epoch.  Nothing can be
/// assumed of the clock's value.
#[verifier::external_body]
pub fn now_unix_secs() -> u64 {
    match std::time::SystemTime::now().duration_since(std::time::UNIX_EPOCH) {
        Ok(d) => d.as_secs(),
        Err(_) => 0,
    }
}

/// How an insertion reshapes the cache: the first entry with the key is
/// replaced, or the pair is appended, carrying some expiry `e`.
pub open spec fn set_outcome(
    ov: Seq<CacheEntry>,
    nv: Seq<CacheEntry>,
    k: Seq<u8>,
    d: Seq<u8>,
    e: u64,
) -> bool {
    match cache_index(ov, k) {
        Some(i) => nv == ov.update(i, (k, (d, e))),
        None => nv == ov.push((k, (d, e))),
    }
}

/// A byte cache: data is stored under a key with an expiry, and expired
/// entries are dropped when they are asked for.
#[derive(Debug)]
pub struct Cache {
    entries: Vec<(String, (Vec<u8>, u64))>,
    max_ttl: u64,
}

impl Cache {
    /// The entries, in insertion order.
    pub closed spec fn view_seq(&self) -> Seq<CacheEntry> {
        self.entries@.map_values(
            |p: (String, (Vec<u8>, u64))| (string_bytes(p.0), (p.1.0@, p.1.1)),
        )
    }

    /// The configured lifetime of entries, in seconds.
    pub closed spec fn spec_max_ttl(&self) -> u64 {
        self.max_ttl
    }

    /// Well-formed: no two entries share a key.
    pub closed spec fn wf(&self) -> bool {
        forall|i: int, j: int|
            0 <= i < j < self.view_seq().len() ==> (#[trigger] self.view_seq()[i]).0 != (
            #[trigger] self.view_seq()[j]).0
    }

    /// An empty cache whose entries live for `max_ttl` seconds.
    pub fn new(max_ttl: u64) -> (r: Cache)
        ensures
            r.wf(),
            r.view_seq() == Seq::<CacheEntry>::empty(),
            r.spec_max_ttl() == max_ttl,
    {
        Cache { entries: Vec::new(), max_ttl }
    }

    /// Index of the entry with this key, if any.
    fn find_idx(&self, key: &str) -> (r: Option<usize>)
        ensures
            match r {
                Some(i) => cache_index(self.view_seq(), key.spec_bytes()) == Some(i as int),
                None => cache_index(self.view_seq(), key.spec_bytes()) is None,
            },
    {
        let kb = str_to_bytes(key);
        let mut i: usize = 0;
        while i < self.entries.len()
            invariant
                i <= self.entries@.len(),
                kb@ == key.spec_bytes(),
                forall|j: int|
                    0 <= j < i ==> (#[trigger] self.view_seq()[j]).0 != key.spec_bytes(),
            decreases self.entries.len() - i,
        {
            let name = str_to_bytes(self.entries[i].0.as_str());
            if bytes_eq(&name, &kb) {
                proof {
                    lemma_cache_index(self.view_seq(), key.spec_bytes());
                    match cache_index(self.view_seq(), key.spec_bytes()) {
                        Some(x) => {
                            if x < i {
                                assert(self.view_seq()[x].0 != key.spec_bytes());
                            }
                            if x > i {
                                assert(self.view_seq()[i as int].0 != key.spec_bytes());
                            }
                        },
                        None => {
                            assert(self.view_seq()[i as int].0 != key.spec_bytes());
                        },
                    }
                }
                return Some(i);
            }
            i = i + 1;
        }
        proof {
            lemma_cache_index(self.view_seq(), key.spec_bytes());
            if cache_index(self.view_seq(), key.spec_bytes()) is Some {
                let x = cache_index(self.view_seq(), key.spec_bytes())->Some_0;
                assert(self.view_seq()[x].0 != key.spec_bytes());
            }
        }
        None
    }

    /// Stores data under a key with the expiry `now + max_ttl`, saturating
    /// at the largest representable moment.  An entry with the same key is
    /// replaced; otherwise the pair is appended.
    pub fn set_at(&mut self, key: String, data: Vec<u8>, now: u64)
        requires
            old(self).wf(),
        ensures
            final(self).wf(),
            final(self).spec_max_ttl() == old(self).spec_max_ttl(),
            ({
                let e: u64 = if now <= u64::MAX - old(self).spec_max_ttl() {
                    (now + old(self).spec_max_ttl()) as u64
                } else {
                    u64::MAX
                };
                match cache_index(old(self).view_seq(), string_bytes(key)) {
                    Some(i) => final(self).view_seq() == old(self).view_seq().update(
                        i,
                        (string_bytes(key), (data@, e)),
                    ),
                    None => final(self).view_seq() == old(self).view_seq().push(
                        (string_bytes(key), (data@, e)),
                    ),
                }
            }),
    {
        let expiry: u64 = if now <= u64::MAX - self.max_ttl {
            now + self.max_ttl
        } else {
            u64::MAX
        };
        let idx = self.find_idx(key.as_str());
        match idx {
            Some(i) => {
                proof {
                    lemma_cache_index(self.view_seq(), string_bytes(key));
                }
                let _ = self.entries.remove(i);
                self.entries.insert(i, (key, (data, expiry)));
                proof {
                    let ghost ov = old(self).view_seq();
                    assert(final(self).view_seq() =~= ov.update(
                        i as int,
                        (string_bytes(key), (data@, expiry)),
                    ));
                    assert forall|a: int, b: int|
                        0 <= a < b < final(self).view_seq().len() implies (#[trigger] final(self).view_seq()[a]).0 != (
                    #[trigger] final(self).view_seq()[b]).0 by {
                        assert(ov[i as int].0 == string_bytes(key));
                        if a != i {
                            assert(final(self).view_seq()[a] == ov[a]);
                        }
                        if b != i {
                            assert(final(self).view_seq()[b] == ov[b]);
                        }
                    }
                }
            },
            None => {
                proof {
                    lemma_cache_index(self.view_seq(), string_bytes(key));
                }
                self.entries.push((key, (data, expiry)));
                proof {
                    let ghost ov = old(self).view_seq();
                    assert(final(self).view_seq() =~= ov.push(
                        (string_bytes(key), (data@, expiry)),
                    ));
                    assert forall|a: int, b: int|
                        0 <= a < b < final(self).view_seq().len() implies (#[trigger] final(self).view_seq()[a]).0 != (
                    #[trigger] final(self).view_seq()[b]).0 by {
                        if b < ov.len() {
                            assert(final(self).view_seq()[a] == ov[a]);
                            assert(final(self).view_seq()[b] == ov[b]);
                        } else {
                            assert(final(self).view_seq()[a] == ov[a]);
                            assert(ov[a].0 != string_bytes(key));
                        }
                    }
                }
            },
        }
    }

    /// Stores data under a key; the expiry is taken from the clock.
    pub fn set(&mut self, key: String, data: Vec<u8>)
        requires
            old(self).wf(),
        ensures
            final(self).wf(),
            final(self).spec_max_ttl() == old(self).spec_max_ttl(),
            (exists|e: u64|
                #[trigger] set_outcome(
                    old(self).view_seq(),
                    final(self).view_seq(),
                    string_bytes(key),
                    data@,
                    e,
                )),
    {
        let now = now_unix_secs();
        let ghost k = string_bytes(key);
        let ghost d = data@;
        let ghost ov = self.view_seq();
        self.set_at(key, data, now);
        proof {
            let e: u64 = if now <= u64::MAX - old(self).spec_max_ttl() {
                (now + old(self).spec_max_ttl()) as u64
            } else {
                u64::MAX
            };
            assert(set_outcome(ov, self.view_seq(), k, d, e));
        }
    }

    /// Fetches the data under a key as of a given moment.  Present and
    /// unexpired, the data is returned; present but expired, the entry is
    /// removed and nothing is returned.
    pub fn get_at(&mut self, key: String, now: u64) -> (r: Option<Vec<u8>>)
        requires
            old(self).wf(),
        ensures
            final(self).wf(),
            final(self).spec_max_ttl() == old(self).spec_max_ttl(),
            ({
                let ov = old(self).view_seq();
                match cache_index(ov, string_bytes(key)) {
                    Some(i) => {
                        if now < ov[i].1.1 {
                            r matches Some(d) && d@ == ov[i].1.0 && final(self).view_seq() == ov
                        } else {
                            r is None && final(self).view_seq() == ov.remove(i)
                        }
                    },
                    None => r is None && final(self).view_seq() == ov,
                }
            }),
    {
        let idx = self.find_idx(key.as_str());
        match idx {
            Some(i) => {
                proof {
                    lemma_cache_index(self.view_seq(), string_bytes(key));
                }
                let expiry = self.entries[i].1.1;
                if now < expiry {
                    let data = subvec(&self.entries[i].1.0, 0, self.entries[i].1.0.len());
                    proof {
                        assert(data@ =~= old(self).view_seq()[i as int].1.0);
                    }
                    Some(data)
                } else {
                    let _ = self.entries.remove(i);
                    proof {
                        let ghost ov = old(self).view_seq();
                        assert(final(self).view_seq() =~= ov.remove(i as int));
                        assert forall|a: int, b: int|
                            0 <= a < b < final(self).view_seq().len() implies (#[trigger] final(self).view_seq()[a]).0 != (
                        #[trigger] final(self).view_seq()[b]).0 by {
                            let fa = if a < i {
                                a
                            } else {
                                a + 1
                            };
                            let fb = if b < i {
                                b
                            } else {
                                b + 1
                            };
                            assert(final(self).view_seq()[a].0 == ov[fa].0);
                            assert(final(self).view_seq()[b].0 == ov[fb].0);
                        }
                    }
                    None
                }
            },
            None => None,
        }
    }

    /// Fetches the data under a key as of the clock's moment now.
    pub fn get(&mut self, key: String) -> (r: Option<Vec<u8>>)
        requires
            old(self).wf(),
        ensures
            final(self).wf(),
            final(self).spec_max_ttl() == old(self).spec_max_ttl(),
            ({
                let ov = old(self).view_seq();
                match cache_index(ov, string_bytes(key)) {
                    Some(i) => (r matches Some(d) ==> d@ == ov[i].1.0 && final(self).view_seq()
                        == ov) && (r is None ==> final(self).view_seq() == ov.remove(i)),
                    None => r is None && final(self).view_seq() == ov,
                }
            }),
    {
        let now = now_unix_secs();
        self.get_at(key, now)
    }
}

} // verus!
