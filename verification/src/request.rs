//! HTTP requests: the request value itself and its query-argument map.

use vstd::prelude::*;

verus! {

use vstd::string::StringSliceAdditionalSpecFns;
use vstd::string::StringExecFns;
use vstd::utf8::valid_utf8;
use crate::headers::{Headers, HeaderPair};
use crate::method::{HttpMethod, MethodView, method_view};
use crate::text::{string_bytes, string_from_utf8, str_to_bytes, bytes_eq};

/// One query argument of the view: name and value, as bytes.
pub type ArgPair = (Seq<u8>, Seq<u8>);

/// Index of the first entry with exactly this name.
pub open spec fn arg_index(s: Seq<ArgPair>, k: Seq<u8>) -> Option<int>
    decreases s.len(),
{
    if s.len() == 0 {
        None
    } else if s[0].0 == k {
        Some(0int)
    } else {
        match arg_index(s.drop_first(), k) {
            Some(i) => Some(i + 1),
            None => None,
        }
    }
}

/// `arg_index` finds the least match, and `None` means there is none.
pub proof fn lemma_arg_index(s: Seq<ArgPair>, k: Seq<u8>)
    ensures
        match arg_index(s, k) {
            Some(i) => 0 <= i < s.len() && s[i].0 == k && forall|j: int|
                0 <= j < i ==> (#[trigger] s[j]).0 != k,
            None => forall|j: int| 0 <= j < s.len() ==> (#[trigger] s[j]).0 != k,
        },
    decreases s.len(),
{
    if s.len() == 0 {
    } else if s[0].0 == k {
    } else {
        lemma_arg_index(s.drop_first(), k);
        let t = s.drop_first();
        assert(forall|j: int| 1 <= j < s.len() ==> s[j] == t[j - 1]);
    }
}

/// Insertion into an argument list: the first entry with the same name gets
/// the new value, otherwise the pair is appended.
pub open spec fn arg_insert(s: Seq<ArgPair>, k: Seq<u8>, v: Seq<u8>) -> Seq<ArgPair> {
    match arg_index(s, k) {
        Some(i) => s.update(i, (k, v)),
        None => s.push((k, v)),
    }
}

/// The query-argument map: name-to-value pairs with exact-match names, kept
/// in insertion order.
#[derive(Debug)]
pub struct Args {
    entries: Vec<(String, String)>,
}

impl Args {
    /// The entries, in insertion order, as byte pairs.
    pub closed spec fn view_seq(&self) -> Seq<ArgPair> {
        self.entries@.map_values(|p: (String, String)| (string_bytes(p.0), string_bytes(p.1)))
    }

    /// Well-formed: no two entries share a name.
    pub closed spec fn wf(&self) -> bool {
        forall|i: int, j: int|
            0 <= i < j < self.view_seq().len() ==> (#[trigger] self.view_seq()[i]).0 != (
            #[trigger] self.view_seq()[j]).0
    }

    /// True when some entry has exactly this name.
    pub open spec fn contains_key(&self, k: Seq<u8>) -> bool {
        arg_index(self.view_seq(), k) is Some
    }

    /// The value stored under the name, when present.
    pub open spec fn lookup(&self, k: Seq<u8>) -> Seq<u8>
        recommends
            self.contains_key(k),
    {
        self.view_seq()[arg_index(self.view_seq(), k)->Some_0].1
    }

    /// An empty map.
    pub fn new() -> (r: Args)
        ensures
            r.wf(),
            r.view_seq() == Seq::<ArgPair>::empty(),
    {
        Args { entries: Vec::new() }
    }

    /// Index of the entry with this name, if any.
    fn find_idx(&self, key: &str) -> (r: Option<usize>)
        ensures
            match r {
                Some(i) => arg_index(self.view_seq(), key.spec_bytes()) == Some(i as int),
                None => arg_index(self.view_seq(), key.spec_bytes()) is None,
            },
    {
        let kb = str_to_bytes(key);
        let mut i: usize = 0;
        while i < self.entries.len()
            invariant
                i <= self.entries@.len(),
                kb@ == key.spec_bytes(),
                forall|j: int| 0 <= j < i ==> (#[trigger] self.view_seq()[j]).0 != key.spec_bytes(),
            decreases self.entries.len() - i,
        {
            let name = str_to_bytes(self.entries[i].0.as_str());
            if bytes_eq(&name, &kb) {
                proof {
                    lemma_arg_index(self.view_seq(), key.spec_bytes());
                    match arg_index(self.view_seq(), key.spec_bytes()) {
                        Some(x) => {
                            if x < i {
                                assert(self.view_seq()[x].0 != key.spec_bytes());
                            }
                            if x > i {
                                assert(self.view_seq()[i as int].0 != key.spec_bytes());
                            }
                        },
                        None => {
                            assert(self.view_seq()[i as int].0 != key.spec_bytes());
                        },
                    }
                }
                return Some(i);
            }
            i = i + 1;
        }
        proof {
            lemma_arg_index(self.view_seq(), key.spec_bytes());
            if arg_index(self.view_seq(), key.spec_bytes()) is Some {
                let x = arg_index(self.view_seq(), key.spec_bytes())->Some_0;
                assert(self.view_seq()[x].0 != key.spec_bytes());
            }
        }
        None
    }

    /// Inserts a pair; an entry with the same name gets the new value.
    pub fn insert(&mut self, key: &str, value: &str)
        requires
            old(self).wf(),
        ensures
            final(self).wf(),
            final(self).view_seq() == arg_insert(
                old(self).view_seq(),
                key.spec_bytes(),
                value.spec_bytes(),
            ),
    {
        let idx = self.find_idx(key);
        match idx {
            Some(i) => {
                proof {
                    lemma_arg_index(self.view_seq(), key.spec_bytes());
                }
                let _ = self.entries.remove(i);
                self.entries.insert(i, (String::from_str(key), String::from_str(value)));
                proof {
                    let ghost ov = old(self).view_seq();
                    assert(final(self).view_seq() =~= ov.update(
                        i as int,
                        (key.spec_bytes(), value.spec_bytes()),
                    ));
                    assert forall|a: int, b: int|
                        0 <= a < b < final(self).view_seq().len() implies (#[trigger] final(self).view_seq()[a]).0 != (#[trigger] final(self).view_seq()[b]).0 by {
                        assert(ov[i as int].0 == key.spec_bytes());
                        if a != i {
                            assert(final(self).view_seq()[a] == ov[a]);
                        }
                        if b != i {
                            assert(final(self).view_seq()[b] == ov[b]);
                        }
                    }
                }
            },
            None => {
                proof {
                    lemma_arg_index(self.view_seq(), key.spec_bytes());
                }
                self.entries.push((String::from_str(key), String::from_str(value)));
                proof {
                    let ghost ov = old(self).view_seq();
                    assert(final(self).view_seq() =~= ov.push(
                        (key.spec_bytes(), value.spec_bytes()),
                    ));
                    assert forall|a: int, b: int|
                        0 <= a < b < final(self).view_seq().len() implies (#[trigger] final(self).view_seq()[a]).0 != (#[trigger] final(self).view_seq()[b]).0 by {
                        if b < ov.len() {
                            assert(final(self).view_seq()[a] == ov[a]);
                            assert(final(self).view_seq()[b] == ov[b]);
                        } else {
                            assert(final(self).view_seq()[a] == ov[a]);
                            assert(ov[a].0 != key.spec_bytes());
                        }
                    }
                }
            },
        }
    }

    /// Looks a name up by exact match.
    pub fn get(&self, key: &str) -> (r: Option<&String>)
        ensures
            match r {
                Some(v) => self.contains_key(key.spec_bytes()) && string_bytes(*v)
                    == self.lookup(key.spec_bytes()),
                None => !self.contains_key(key.spec_bytes()),
            },
    {
        let idx = self.find_idx(key);
        match idx {
            Some(i) => {
                proof {
                    lemma_arg_index(self.view_seq(), key.spec_bytes());
                }
                Some(&self.entries[i].1)
            },
            None => None,
        }
    }

    /// Number of entries.
    pub fn len(&self) -> (r: usize)
        ensures
            r == self.view_seq().len(),
    {
        self.entries.len()
    }

    /// True when the map has no entry.
    pub fn is_empty(&self) -> (r: bool)
        ensures
            r == (self.view_seq().len() == 0),
    {
        self.entries.is_empty()
    }
}

impl Clone for Args {
    /// Clones the map; the copy has the same view.
    fn clone(&self) -> (r: Self)
        ensures
            r.view_seq() == self.view_seq(),
            self.wf() ==> r.wf(),
    {
        let mut entries: Vec<(String, String)> = Vec::new();
        let mut i: usize = 0;
        while i < self.entries.len()
            invariant
                i <= self.entries@.len(),
                entries@ == self.entries@.subrange(0, i as int),
            decreases self.entries.len() - i,
        {
            entries.push((self.entries[i].0.clone(), self.entries[i].1.clone()));
            i = i + 1;
            proof {
                assert(entries@ =~= self.entries@.subrange(0, i as int));
            }
        }
        proof {
            assert(entries@ =~= self.entries@);
        }
        let r = Args { entries };
        proof {
            assert(r.view_seq() =~= self.view_seq());
        }
        r
    }
}

/// The serialized query string: `name=value` pairs joined by `&`, in order.
pub open spec fn args_query_bytes(s: Seq<ArgPair>) -> Seq<u8>
    decreases s.len(),
{
    if s.len() == 0 {
        Seq::<u8>::empty()
    } else if s.len() == 1 {
        s[0].0 + seq![61u8] + s[0].1
    } else {
        args_query_bytes(s.drop_last()) + seq![38u8] + s.last().0 + seq![61u8] + s.last().1
    }
}

impl Args {
    /// Appends the serialized query string to `out`.
    pub fn append_query(&self, out: &mut Vec<u8>)
        ensures
            final(out)@ == old(out)@ + args_query_bytes(self.view_seq()),
    {
        let n = self.entries.len();
        let mut i: usize = 0;
        proof {
            assert(self.view_seq().subrange(0, 0).len() == 0);
            assert(out@ + args_query_bytes(self.view_seq().subrange(0, 0)) =~= out@);
        }
        while i < n
            invariant
                i <= n,
                n == self.entries@.len(),
                out@ == old(out)@ + args_query_bytes(self.view_seq().subrange(0, i as int)),
            decreases n - i,
        {
            if i > 0 {
                out.push(38);
            }
            crate::text::extend_str(out, self.entries[i].0.as_str());
            out.push(61);
            crate::text::extend_str(out, self.entries[i].1.as_str());
            i = i + 1;
            proof {
                let vs = self.view_seq();
                let cur = vs.subrange(0, i as int);
                assert(cur.drop_last() =~= vs.subrange(0, i - 1));
                assert(cur.last() == vs[i - 1]);
                if i == 1 {
                    assert(args_query_bytes(cur) == cur[0].0 + seq![61u8] + cur[0].1);
                    assert(out@ =~= old(out)@ + args_query_bytes(cur));
                } else {
                    assert(args_query_bytes(cur) == args_query_bytes(vs.subrange(0, i - 1))
                        + seq![38u8] + vs[i - 1].0 + seq![61u8] + vs[i - 1].1);
                    assert(out@ =~= old(out)@ + args_query_bytes(cur));
                }
            }
        }
        proof {
            assert(self.view_seq().subrange(0, n as int) =~= self.view_seq());
        }
    }

    /// Every stored name and value is valid UTF-8: they came from strings.
    pub proof fn lemma_view_valid(&self)
        ensures
            forall|i: int|
                0 <= i < self.view_seq().len() ==> vstd::utf8::valid_utf8(
                    (#[trigger] self.view_seq()[i]).0,
                ) && vstd::utf8::valid_utf8(self.view_seq()[i].1),
    {
        assert forall|i: int| 0 <= i < self.view_seq().len() implies vstd::utf8::valid_utf8(
            (#[trigger] self.view_seq()[i]).0,
        ) && vstd::utf8::valid_utf8(self.view_seq()[i].1) by {
            vstd::utf8::encode_utf8_valid_utf8(self.entries@[i].0@);
            vstd::utf8::encode_utf8_valid_utf8(self.entries@[i].1@);
        }
    }

    /// The serialized query string of valid entries is valid UTF-8.
    pub proof fn lemma_query_valid(s: Seq<ArgPair>)
        requires
            forall|i: int|
                0 <= i < s.len() ==> vstd::utf8::valid_utf8((#[trigger] s[i]).0)
                    && vstd::utf8::valid_utf8(s[i].1),
        ensures
            vstd::utf8::valid_utf8(args_query_bytes(s)),
        decreases s.len(),
    {
        if s.len() == 0 {
        } else if s.len() == 1 {
            crate::text::lemma_ascii_valid_utf8(seq![61u8]);
            vstd::utf8::valid_utf8_concat(s[0].0, seq![61u8]);
            vstd::utf8::valid_utf8_concat(s[0].0 + seq![61u8], s[0].1);
        } else {
            let t = s.drop_last();
            assert(forall|i: int| 0 <= i < t.len() ==> (#[trigger] t[i]) == s[i]);
            Self::lemma_query_valid(t);
            crate::text::lemma_ascii_valid_utf8(seq![61u8]);
            crate::text::lemma_ascii_valid_utf8(seq![38u8]);
            vstd::utf8::valid_utf8_concat(args_query_bytes(t), seq![38u8]);
            vstd::utf8::valid_utf8_concat(args_query_bytes(t) + seq![38u8], s.last().0);
            vstd::utf8::valid_utf8_concat(
                args_query_bytes(t) + seq![38u8] + s.last().0,
                seq![61u8],
            );
            vstd::utf8::valid_utf8_concat(
                args_query_bytes(t) + seq![38u8] + s.last().0 + seq![61u8],
                s.last().1,
            );
        }
    }
}

/// Mathematical image of a request.
pub ghost struct RequestView {
    pub method: MethodView,
    pub path: Seq<u8>,
    pub args: Seq<ArgPair>,
    pub headers: Seq<HeaderPair>,
    pub body: Seq<u8>,
}

/// A parsed HTTP request.
#[derive(Debug)]
pub struct HttpRequest {
    pub method: HttpMethod,
    pub path: String,
    pub args: Args,
    pub headers: Headers,
    pub body: Vec<u8>,
}

impl View for HttpRequest {
    type V = RequestView;

    open spec fn view(&self) -> RequestView {
        RequestView {
            method: method_view(self.method),
            path: string_bytes(self.path),
            args: self.args.view_seq(),
            headers: self.headers.view_seq(),
            body: self.body@,
        }
    }
}

/// Clones a method; the copy has the same view.
fn clone_method(m: &HttpMethod) -> (r: HttpMethod)
    ensures
        method_view(r) == method_view(*m),
{
    match m {
        HttpMethod::GET => HttpMethod::GET,
        HttpMethod::POST => HttpMethod::POST,
        HttpMethod::PUT => HttpMethod::PUT,
        HttpMethod::DELETE => HttpMethod::DELETE,
        HttpMethod::PATCH => HttpMethod::PATCH,
        HttpMethod::HEAD => HttpMethod::HEAD,
        HttpMethod::OPTIONS => HttpMethod::OPTIONS,
        HttpMethod::TRACE => HttpMethod::TRACE,
        HttpMethod::CONNECT => HttpMethod::CONNECT,
        HttpMethod::Other(s) => HttpMethod::Other(s.clone()),
    }
}

impl HttpRequest {
    /// Well-formed: argument and header maps have no duplicate names.
    pub open spec fn wf(&self) -> bool {
        self.args.wf() && self.headers.wf()
    }

    /// A request with the given method and path and nothing else.
    pub fn new(method: HttpMethod, path: &str) -> (r: HttpRequest)
        ensures
            r.wf(),
            r@.method == method_view(method),
            r@.path == path.spec_bytes(),
            r@.args == Seq::<ArgPair>::empty(),
            r@.headers == Seq::<HeaderPair>::empty(),
            r@.body == Seq::<u8>::empty(),
    {
        HttpRequest {
            method,
            path: String::from_str(path),
            args: Args::new(),
            headers: Headers::new(),
            body: Vec::new(),
        }
    }

    /// A blank request: empty catch-all method, empty path, nothing else.
    pub fn default() -> (r: HttpRequest)
        ensures
            r.wf(),
            r@.path == Seq::<u8>::empty(),
            r@.args == Seq::<ArgPair>::empty(),
            r@.headers == Seq::<HeaderPair>::empty(),
            r@.body == Seq::<u8>::empty(),
    {
        HttpRequest {
            method: HttpMethod::Other(String::new()),
            path: String::new(),
            args: Args::new(),
            headers: Headers::new(),
            body: Vec::new(),
        }
    }

    /// Clones the request; the copy has the same view.
    pub fn clone(&self) -> (r: HttpRequest)
        ensures
            r@ == self@,
            self.wf() ==> r.wf(),
    {
        let r = HttpRequest {
            method: clone_method(&self.method),
            path: self.path.clone(),
            args: self.args.clone(),
            headers: self.headers.clone(),
            body: self.body.clone(),
        };
        proof {
            assert(r@ =~= self@);
        }
        r
    }

    /// Adds a query argument.
    pub fn arg(&mut self, key: &str, value: &str)
        requires
            old(self).wf(),
        ensures
            final(self).wf(),
            final(self)@ == (RequestView {
                args: arg_insert(old(self)@.args, key.spec_bytes(), value.spec_bytes()),
                ..old(self)@
            }),
    {
        self.args.insert(key, value);
    }

    /// Adds a header.
    pub fn header(&mut self, key: &str, value: &str)
        requires
            old(self).wf(),
        ensures
            final(self).wf(),
            final(self)@.method == old(self)@.method,
            final(self)@.path == old(self)@.path,
            final(self)@.args == old(self)@.args,
            final(self)@.body == old(self)@.body,
            (match crate::headers::key_index(old(self)@.headers, key.spec_bytes()) {
                Some(i) => final(self)@.headers == old(self)@.headers.update(
                    i,
                    (old(self)@.headers[i].0, value.spec_bytes()),
                ),
                None => final(self)@.headers == old(self)@.headers.push(
                    (key.spec_bytes(), value.spec_bytes()),
                ),
            }),
    {
        self.headers.insert(key, value);
    }

    /// The body decoded as UTF-8 text; `None` when the body is empty or is
    /// not valid UTF-8.
    pub fn text(&self) -> (r: Option<String>)
        ensures
            match r {
                Some(s) => self@.body.len() > 0 && valid_utf8(self@.body) && string_bytes(s)
                    == self@.body,
                None => self@.body.len() == 0 || !valid_utf8(self@.body),
            },
    {
        if self.body.len() == 0 {
            return None;
        }
        string_from_utf8(self.body.clone())
    }
}

} // verus!
