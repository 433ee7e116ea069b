//! Server configuration and the proxy-rule decision.

use vstd::prelude::*;

verus! {

use vstd::string::StringSliceAdditionalSpecFns;
use vstd::string::StringExecFns;
use crate::request::HttpRequest;
use crate::text::{
    string_bytes,
    str_to_bytes,
    bytes_eq,
    subvec,
    has_prefix,
    starts_with,
    string_from_utf8,
};

/// A prefix-to-target rule table, in insertion order.
#[derive(Debug)]
pub struct RuleMap {
    entries: Vec<(String, String)>,
}

impl RuleMap {
    /// The rules, in insertion order, as byte pairs.
    pub closed spec fn view_seq(&self) -> Seq<(Seq<u8>, Seq<u8>)> {
        self.entries@.map_values(|p: (String, String)| (string_bytes(p.0), string_bytes(p.1)))
    }

    /// An empty table.
    pub fn new() -> (r: RuleMap)
        ensures
            r.view_seq() == Seq::<(Seq<u8>, Seq<u8>)>::empty(),
    {
        RuleMap { entries: Vec::new() }
    }

    /// Appends a rule.
    pub fn push_rule(&mut self, prefix: &str, target: &str)
        ensures
            final(self).view_seq() == old(self).view_seq().push(
                (prefix.spec_bytes(), target.spec_bytes()),
            ),
    {
        self.entries.push((String::from_str(prefix), String::from_str(target)));
        proof {
            assert(final(self).view_seq() =~= old(self).view_seq().push(
                (prefix.spec_bytes(), target.spec_bytes()),
            ));
        }
    }

    /// Number of rules.
    pub fn len(&self) -> (r: usize)
        ensures
            r == self.view_seq().len(),
    {
        self.entries.len()
    }

    /// The prefix of the rule at an index.
    pub fn prefix_at(&self, i: usize) -> (r: &String)
        requires
            i < self.view_seq().len(),
        ensures
            string_bytes(*r) == self.view_seq()[i as int].0,
    {
        &self.entries[i].0
    }

    /// The target of the rule at an index.
    pub fn target_at(&self, i: usize) -> (r: &String)
        requires
            i < self.view_seq().len(),
        ensures
            string_bytes(*r) == self.view_seq()[i as int].1,
    {
        &self.entries[i].1
    }
}

impl Clone for RuleMap {
    /// Clones the table; the copy has the same view.
    fn clone(&self) -> (r: Self)
        ensures
            r.view_seq() == self.view_seq(),
    {
        let mut entries: Vec<(String, String)> = Vec::new();
        let mut i: usize = 0;
        while i < self.entries.len()
            invariant
                i <= self.entries@.len(),
                entries@ == self.entries@.subrange(0, i as int),
            decreases self.entries.len() - i,
        {
            entries.push((self.entries[i].0.clone(), self.entries[i].1.clone()));
            i = i + 1;
            proof {
                assert(entries@ =~= self.entries@.subrange(0, i as int));
            }
        }
        proof {
            assert(entries@ =~= self.entries@);
        }
        let r = RuleMap { entries };
        proof {
            assert(r.view_seq() =~= self.view_seq());
        }
        r
    }
}

/// The server's runtime settings.
#[derive(Debug)]
pub struct Config {
    pub port: u16,
    pub host: String,
    pub root: String,
    pub cache: bool,
    pub cache_ttl: u16,
    pub threads: u16,
    pub log_file: Option<String>,
    pub index: String,
    pub proxy_rules: RuleMap,
    pub cgi_rules: RuleMap,
}

impl Config {
    /// The stock configuration: one worker serving the working directory on
    /// the local host.
    pub fn new_default() -> (r: Config)
        ensures
            r.port == 8080,
            string_bytes(r.host) == "localhost".spec_bytes(),
            string_bytes(r.root) == ".".spec_bytes(),
            string_bytes(r.index) == "index.html".spec_bytes(),
            r.log_file is None,
            r.threads == 1,
            !r.cache,
            r.cache_ttl == 0,
            r.proxy_rules.view_seq().len() == 0,
            r.cgi_rules.view_seq().len() == 0,
    {
        Config {
            port: 8080,
            host: String::from_str("localhost"),
            root: String::from_str("."),
            index: String::from_str("index.html"),
            log_file: None,
            threads: 1,
            cache: false,
            cache_ttl: 0,
            proxy_rules: RuleMap::new(),
            cgi_rules: RuleMap::new(),
        }
    }

    /// The forward-everything configuration: one catch-all proxy rule with
    /// an empty target, two workers, every interface.
    pub fn new_proxy() -> (r: Config)
        ensures
            r.port == 8080,
            string_bytes(r.host) == "0.0.0.0".spec_bytes(),
            string_bytes(r.root) == "./".spec_bytes(),
            string_bytes(r.index) == "index.html".spec_bytes(),
            r.log_file is None,
            r.threads == 2,
            !r.cache,
            r.cache_ttl == 0,
            r.proxy_rules.view_seq() == Seq::<(Seq<u8>, Seq<u8>)>::empty().push(
                ("/".spec_bytes(), "".spec_bytes()),
            ),
            r.cgi_rules.view_seq().len() == 0,
    {
        let mut proxy_rules = RuleMap::new();
        proxy_rules.push_rule("/", "");
        Config {
            port: 8080,
            host: String::from_str("0.0.0.0"),
            root: String::from_str("./"),
            cache: false,
            cache_ttl: 0,
            threads: 2,
            log_file: None,
            index: String::from_str("index.html"),
            proxy_rules,
            cgi_rules: RuleMap::new(),
        }
    }
}

/// Index of the first proxy rule whose prefix starts the path, if any.
pub open spec fn rule_match(rules: Seq<(Seq<u8>, Seq<u8>)>, path: Seq<u8>) -> Option<int>
    decreases rules.len(),
{
    if rules.len() == 0 {
        None
    } else if starts_with(path, rules[0].0) {
        Some(0int)
    } else {
        match rule_match(rules.drop_first(), path) {
            Some(i) => Some(i + 1),
            None => None,
        }
    }
}

/// `rule_match` finds the least match, and `None` means there is none.
pub proof fn lemma_rule_match(rules: Seq<(Seq<u8>, Seq<u8>)>, path: Seq<u8>)
    ensures
        match rule_match(rules, path) {
            Some(i) => 0 <= i < rules.len() && starts_with(path, rules[i].0) && forall|j: int|
                0 <= j < i ==> !starts_with(path, (#[trigger] rules[j]).0),
            None => forall|j: int| 0 <= j < rules.len() ==> !starts_with(path, (#[trigger] rules[j]).0),
        },
    decreases rules.len(),
{
    if rules.len() == 0 {
    } else if starts_with(path, rules[0].0) {
    } else {
        lemma_rule_match(rules.drop_first(), path);
        let t = rules.drop_first();
        assert(forall|j: int| 1 <= j < rules.len() ==> rules[j] == t[j - 1]);
    }
}

/// The two spellings of the host header name fold alike.
proof fn lemma_host_fold()
    ensures
        crate::text::fold("Host".spec_bytes()) == crate::text::fold("host".spec_bytes()),
{
    reveal_strlit("Host");
    reveal_strlit("host");
    assert("Host"@.len() == 4);
    assert("host"@.len() == 4);
    assert(vstd::utf8::is_ascii_chars("Host"@)) by {
        let s = "Host"@;
        assert forall|i: int| 0 <= i < 4 implies '\0' <= #[trigger] (s[i]) <= '\u{7f}' by {
            if i == 0 {
                assert(s[0] == 'H');
            } else if i == 1 {
                assert(s[1] == 'o');
            } else if i == 2 {
                assert(s[2] == 's');
            } else {
                assert(s[3] == 't');
            }
        }
    }
    assert(vstd::utf8::is_ascii_chars("host"@)) by {
        let s = "host"@;
        assert forall|i: int| 0 <= i < 4 implies '\0' <= #[trigger] (s[i]) <= '\u{7f}' by {
            if i == 0 {
                assert(s[0] == 'h');
            } else if i == 1 {
                assert(s[1] == 'o');
            } else if i == 2 {
                assert(s[2] == 's');
            } else {
                assert(s[3] == 't');
            }
        }
    }
    vstd::utf8::is_ascii_chars_encode_utf8("Host"@);
    vstd::utf8::is_ascii_chars_encode_utf8("host"@);
    assert(crate::text::fold("Host".spec_bytes()) =~= crate::text::fold("host".spec_bytes()))
        by {
        assert(crate::text::fold("Host".spec_bytes())[0] == crate::text::fold_byte('H' as u8));
        assert(crate::text::fold("host".spec_bytes())[0] == crate::text::fold_byte('h' as u8));
        assert(crate::text::fold("Host".spec_bytes())[1] == crate::text::fold_byte('o' as u8));
        assert(crate::text::fold("host".spec_bytes())[1] == crate::text::fold_byte('o' as u8));
        assert(crate::text::fold("Host".spec_bytes())[2] == crate::text::fold_byte('s' as u8));
        assert(crate::text::fold("host".spec_bytes())[2] == crate::text::fold_byte('s' as u8));
        assert(crate::text::fold("Host".spec_bytes())[3] == crate::text::fold_byte('t' as u8));
        assert(crate::text::fold("host".spec_bytes())[3] == crate::text::fold_byte('t' as u8));
    }
}

/// True when a `://` separator starts at position `i` of `t`.
pub open spec fn is_sep_at(t: Seq<u8>, i: int) -> bool {
    0 <= i && i + 3 <= t.len() && t[i] == 58 && t[i + 1] == 47 && t[i + 2] == 47
}

/// Position of the last `://` of `t`, if any.
pub open spec fn last_sep(t: Seq<u8>) -> Option<int>
    decreases t.len(),
{
    if t.len() < 3 {
        None
    } else if is_sep_at(t, t.len() - 3) {
        Some(t.len() - 3)
    } else {
        last_sep(t.drop_last())
    }
}

/// `last_sep` finds the greatest separator, and `None` means there is none.
pub proof fn lemma_last_sep(t: Seq<u8>)
    ensures
        match last_sep(t) {
            Some(i) => is_sep_at(t, i) && forall|j: int| i < j ==> !(#[trigger] is_sep_at(t, j)),
            None => forall|j: int| !(#[trigger] is_sep_at(t, j)),
        },
    decreases t.len(),
{
    if t.len() < 3 {
    } else if is_sep_at(t, t.len() - 3) {
        assert(forall|j: int| t.len() - 3 < j ==> !(#[trigger] is_sep_at(t, j)));
    } else {
        lemma_last_sep(t.drop_last());
        let u = t.drop_last();
        assert(forall|j: int| 0 <= j && j + 3 <= u.len() ==> is_sep_at(t, j) == is_sep_at(u, j));
    }
}

/// The host part of a rule target: what stands after the last `://`, or the
/// whole target when none occurs.
pub open spec fn host_of_target(t: Seq<u8>) -> Seq<u8> {
    match last_sep(t) {
        Some(i) => t.subrange(i + 3, t.len() as int),
        None => t,
    }
}

/// Extracts the host part of a target URL.
fn host_from_target(url: &String) -> (r: String)
    ensures
        string_bytes(r) == host_of_target(string_bytes(*url)),
{
    let tb = str_to_bytes(url.as_str());
    proof {
        vstd::utf8::encode_utf8_valid_utf8(url@);
        lemma_last_sep(tb@);
    }
    if tb.len() < 3 {
        proof {
            if last_sep(tb@) is Some {
                assert(is_sep_at(tb@, last_sep(tb@)->Some_0));
            }
        }
        return url.clone();
    }
    let n = tb.len();
    let mut i: usize = n - 2;
    while i > 0
        invariant
            3 <= n == tb@.len(),
            i <= n - 2,
            vstd::utf8::valid_utf8(tb@),
            tb@ == string_bytes(*url),
            forall|j: int| i <= j ==> !(#[trigger] is_sep_at(tb@, j)),
        decreases i,
    {
        i = i - 1;
        if tb[i] == 58 && tb[i + 1] == 47 && tb[i + 2] == 47 {
            proof {
                lemma_last_sep(tb@);
                match last_sep(tb@) {
                    Some(k) => {
                        if k < i {
                            assert(!is_sep_at(tb@, k)) by {
                                assert(forall|j: int|
                                    k < j ==> !is_sep_at(tb@, j));
                                assert(is_sep_at(tb@, i as int));
                            }
                        }
                        if k > i {
                            assert(!is_sep_at(tb@, k));
                        }
                    },
                    None => {
                        assert(!is_sep_at(tb@, i as int));
                    },
                }
                crate::text::lemma_ascii_cut(tb@, i + 2);
                assert(tb@.subrange(i + 3, tb@.len() as int) =~= tb@.subrange(
                    i + 2 + 1,
                    tb@.len() as int,
                ));
            }
            let host_b = subvec(&tb, i + 3, n);
            match string_from_utf8(host_b) {
                Some(h) => {
                    return h;
                },
                None => {
                    proof {
                        assert(false);
                    }
                    return url.clone();
                },
            }
        }
    }
    proof {
        lemma_last_sep(tb@);
        if last_sep(tb@) is Some {
            let k = last_sep(tb@)->Some_0;
            assert(is_sep_at(tb@, k));
            assert(k + 3 <= n);
            assert(!is_sep_at(tb@, k));
        }
    }
    url.clone()
}

/// A header sequence with the entry named `host` (in any ASCII case)
/// removed, when one is there.
pub open spec fn without_host(hs: Seq<(Seq<u8>, Seq<u8>)>) -> Seq<(Seq<u8>, Seq<u8>)> {
    match crate::headers::key_index(hs, "host".spec_bytes()) {
        Some(i) => hs.remove(i),
        None => hs,
    }
}

/// Whether a request is to be proxied.  Rules are tried in insertion order;
/// the first whose prefix starts the request's path wins.  The proxied
/// request carries the path with the prefix stripped, and its `Host` header
/// replaced by the host part of the rule's target.
#[verifier::rlimit(100)]
pub fn is_proxy(config: &Config, req: HttpRequest) -> (r: Option<(String, HttpRequest)>)
    requires
        req.wf(),
    ensures
        (match r {
            Some(pair) => {
                &&& rule_match(config.proxy_rules.view_seq(), req@.path) is Some
                &&& string_bytes(pair.0) == config.proxy_rules.view_seq()[rule_match(
                    config.proxy_rules.view_seq(),
                    req@.path,
                )->Some_0].1
                &&& pair.1.wf()
                &&& pair.1@.method == req@.method
                &&& pair.1@.body == req@.body
                &&& pair.1@.args == req@.args
                &&& pair.1@.path == req@.path.subrange(
                    config.proxy_rules.view_seq()[rule_match(
                        config.proxy_rules.view_seq(),
                        req@.path,
                    )->Some_0].0.len() as int,
                    req@.path.len() as int,
                )
                &&& pair.1@.headers == without_host(req@.headers).push(
                    (
                        "host".spec_bytes(),
                        host_of_target(
                            config.proxy_rules.view_seq()[rule_match(
                                config.proxy_rules.view_seq(),
                                req@.path,
                            )->Some_0].1,
                        ),
                    ),
                )
            },
            None => rule_match(config.proxy_rules.view_seq(), req@.path) is None,
        }),
{
    let ghost rules = config.proxy_rules.view_seq();
    let pb = str_to_bytes(req.path.as_str());
    let n = config.proxy_rules.len();
    let mut i: usize = 0;
    proof {
        lemma_rule_match(rules, req@.path);
    }
    while i < n
        invariant
            i <= n,
            n == config.proxy_rules.view_seq().len(),
            rules == config.proxy_rules.view_seq(),
            pb@ == req@.path,
            req.wf(),
            forall|j: int| 0 <= j < i ==> !starts_with(req@.path, (#[trigger] rules[j]).0),
        decreases n - i,
    {
        let prefix = config.proxy_rules.prefix_at(i);
        if has_prefix(&pb, prefix.as_str()) {
            proof {
                lemma_rule_match(rules, req@.path);
                match rule_match(rules, req@.path) {
                    Some(x) => {
                        if x < i {
                            assert(!starts_with(req@.path, rules[x].0));
                        }
                        if x > i {
                            assert(!starts_with(req@.path, rules[i as int].0));
                        }
                    },
                    None => {
                        assert(!starts_with(req@.path, rules[i as int].0));
                    },
                }
            }
            let plen = str_to_bytes(prefix.as_str()).len();
            proof {
                vstd::utf8::encode_utf8_valid_utf8(req.path@);
                vstd::utf8::encode_utf8_valid_utf8(prefix@);
                assert(req@.path.subrange(0, plen as int) == string_bytes(*prefix));
                crate::text::lemma_valid_prefix_split(req@.path, plen as int);
            }
            let suffix = subvec(&pb, plen, pb.len());
            let new_path = match string_from_utf8(suffix) {
                Some(s) => s,
                None => {
                    proof {
                        assert(false);
                    }
                    return None;
                },
            };
            let url = config.proxy_rules.target_at(i);
            let host = host_from_target(url);
            let mut proxy_req = req.clone();
            proxy_req.path = new_path;
            let ghost h0 = proxy_req.headers.view_seq();
            proof {
                proxy_req.headers.lemma_wf_distinct();
            }
            let _ = proxy_req.headers.remove("host");
            let ghost h1 = proxy_req.headers.view_seq();
            proof {
                crate::headers::lemma_key_index(h0, "host".spec_bytes());
                assert(h1 == without_host(req@.headers));
                lemma_host_fold();
                // After the removal no entry folds to the host name: the
                // map held at most one, by well-formedness.
                assert forall|j: int| 0 <= j < h1.len() implies crate::text::fold(
                    (#[trigger] h1[j]).0,
                ) != crate::text::fold("host".spec_bytes()) by {
                    match crate::headers::key_index(h0, "host".spec_bytes()) {
                        Some(i0) => {
                            let orig = if j < i0 {
                                j
                            } else {
                                j + 1
                            };
                            assert(h1[j] == h0[orig]);
                            assert(orig != i0);
                            assert(crate::text::fold(h0[i0].0) == crate::text::fold(
                                "host".spec_bytes(),
                            ));
                        },
                        None => {
                            assert(h1[j] == h0[j]);
                        },
                    }
                }
                crate::headers::lemma_key_index(h1, "host".spec_bytes());
                crate::headers::lemma_key_index(h1, "Host".spec_bytes());
                if crate::headers::key_index(h1, "Host".spec_bytes()) is Some {
                    let j = crate::headers::key_index(h1, "Host".spec_bytes())->Some_0;
                    assert(crate::text::fold(h1[j].0) == crate::text::fold(
                        "host".spec_bytes(),
                    ));
                }
                if crate::headers::key_index(h1, "host".spec_bytes()) is Some {
                    let j = crate::headers::key_index(h1, "host".spec_bytes())->Some_0;
                    assert(crate::text::fold(h1[j].0) == crate::text::fold(
                        "host".spec_bytes(),
                    ));
                }
            }
            let _ = proxy_req.headers.remove("Host");
            proof {
                assert(proxy_req.headers.view_seq() == h1);
            }
            proxy_req.header("host", host.as_str());
            proof {
                assert(proxy_req.headers.view_seq() == h1.push(
                    ("host".spec_bytes(), string_bytes(host)),
                ));
            }
            return Some((url.clone(), proxy_req));
        }
        i = i + 1;
    }
    proof {
        lemma_rule_match(rules, req@.path);
        if rule_match(rules, req@.path) is Some {
            let x = rule_match(rules, req@.path)->Some_0;
            assert(!starts_with(req@.path, rules[x].0));
        }
    }
    None
}


} // verus!
