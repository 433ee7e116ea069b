//! Byte-level text helpers shared by the whole crate.
//!
//! All contracts in the crate speak about strings through their UTF-8 bytes
//! (`spec_bytes` for `&str`, [`string_bytes`] for `String`), so the helpers
//! here work on `Vec<u8>` / `Seq<u8>`: ASCII case folding, line splitting on
//! CRLF, trimming, tokenizing, and decimal / hexadecimal numerals.

use vstd::prelude::*;

verus! {

use vstd::string::StringSliceAdditionalSpecFns;
use vstd::string::StrSliceExecFns;
use vstd::utf8::encode_utf8;
use vstd::utf8::valid_utf8;

/// UTF-8 bytes of a `String`: the canonical view used by contracts.
pub open spec fn string_bytes(s: String) -> Seq<u8> {
    encode_utf8(s@)
}

/// ASCII lower-casing of one byte.
pub open spec fn fold_byte(b: u8) -> u8 {
    if 65 <= b <= 90 {
        (b + 32) as u8
    } else {
        b
    }
}

/// ASCII lower-casing of a byte sequence; header names compare under it.
pub open spec fn fold(s: Seq<u8>) -> Seq<u8> {
    s.map_values(|b: u8| fold_byte(b))
}

/// ASCII upper-casing of one byte.
pub open spec fn raise_byte(b: u8) -> u8 {
    if 97 <= b <= 122 {
        (b - 32) as u8
    } else {
        b
    }
}

/// ASCII upper-casing of a byte sequence.
pub open spec fn raise(s: Seq<u8>) -> Seq<u8> {
    s.map_values(|b: u8| raise_byte(b))
}

/// ASCII lower-casing of one byte (executable form).
pub fn fold_byte_x(b: u8) -> (r: u8)
    ensures
        r == fold_byte(b),
{
    if 65 <= b && b <= 90 {
        b + 32
    } else {
        b
    }
}

/// ASCII lower-casing of a byte vector.
pub fn fold_vec(v: &Vec<u8>) -> (r: Vec<u8>)
    ensures
        r@ == fold(v@),
{
    let mut out: Vec<u8> = Vec::new();
    let mut i: usize = 0;
    while i < v.len()
        invariant
            i <= v.len(),
            out@ == fold(v@.subrange(0, i as int)),
        decreases v.len() - i,
    {
        out.push(fold_byte_x(v[i]));
        i = i + 1;
        proof {
            assert(v@.subrange(0, i as int).drop_last() =~= v@.subrange(0, i - 1));
            assert(out@ =~= fold(v@.subrange(0, i as int)));
        }
    }
    proof {
        assert(v@.subrange(0, v@.len() as int) =~= v@);
    }
    out
}

/// Equality of two byte vectors.
pub fn bytes_eq(a: &Vec<u8>, b: &Vec<u8>) -> (r: bool)
    ensures
        r == (a@ == b@),
{
    if a.len() != b.len() {
        proof {
            assert(a@.len() != b@.len());
        }
        return false;
    }
    let mut i: usize = 0;
    while i < a.len()
        invariant
            i <= a.len(),
            a@.len() == b@.len(),
            forall|j: int| 0 <= j < i ==> a@[j] == b@[j],
        decreases a.len() - i,
    {
        if a[i] != b[i] {
            return false;
        }
        i = i + 1;
    }
    proof {
        assert(a@ =~= b@);
    }
    true
}

/// Bytes of a `&str`, as a vector.
pub fn str_to_bytes(s: &str) -> (r: Vec<u8>)
    ensures
        r@ == s.spec_bytes(),
{
    s.as_bytes_vec()
}

/// Case-insensitive (ASCII) equality of a byte vector and a `&str` pattern.
pub fn fold_eq_str(a: &Vec<u8>, pat: &str) -> (r: bool)
    ensures
        r == (fold(a@) == fold(pat.spec_bytes())),
{
    let fa = fold_vec(a);
    let pb = str_to_bytes(pat);
    let fb = fold_vec(&pb);
    bytes_eq(&fa, &fb)
}

/// Appends all of `src` to `out`.
pub fn extend_bytes(out: &mut Vec<u8>, src: &Vec<u8>)
    ensures
        final(out)@ == old(out)@ + src@,
{
    let mut i: usize = 0;
    while i < src.len()
        invariant
            i <= src.len(),
            out@ == old(out)@ + src@.subrange(0, i as int),
        decreases src.len() - i,
    {
        out.push(src[i]);
        i = i + 1;
        proof {
            assert(old(out)@ + src@.subrange(0, i as int) =~= (old(out)@ + src@.subrange(
                0,
                i - 1,
            )).push(src@[i - 1]));
        }
    }
    proof {
        assert(src@.subrange(0, src@.len() as int) =~= src@);
    }
}

/// Appends the bytes of a `&str` to `out`.
pub fn extend_str(out: &mut Vec<u8>, s: &str)
    ensures
        final(out)@ == old(out)@ + s.spec_bytes(),
{
    let v = str_to_bytes(s);
    extend_bytes(out, &v);
}

/// True when position `i` of `s` starts a CRLF pair.
pub open spec fn is_crlf_at(s: Seq<u8>, i: int) -> bool {
    0 <= i && i + 2 <= s.len() && s[i] == 13 && s[i + 1] == 10
}

/// Position of the first CRLF pair of `s`, if any.
pub open spec fn first_crlf(s: Seq<u8>) -> Option<int>
    decreases s.len(),
{
    if s.len() < 2 {
        None
    } else if s[0] == 13 && s[1] == 10 {
        Some(0int)
    } else {
        match first_crlf(s.drop_first()) {
            Some(i) => Some(i + 1),
            None => None,
        }
    }
}

/// `first_crlf` finds the least CRLF position, and `None` means there is none.
pub proof fn lemma_first_crlf(s: Seq<u8>)
    ensures
        match first_crlf(s) {
            Some(i) => is_crlf_at(s, i) && forall|j: int| 0 <= j < i ==> !is_crlf_at(s, j),
            None => forall|j: int| !is_crlf_at(s, j),
        },
    decreases s.len(),
{
    if s.len() < 2 {
    } else if s[0] == 13 && s[1] == 10 {
    } else {
        lemma_first_crlf(s.drop_first());
        let t = s.drop_first();
        assert(forall|j: int| 1 <= j ==> is_crlf_at(s, j) == is_crlf_at(t, j - 1));
        match first_crlf(t) {
            Some(i) => {
                assert(is_crlf_at(s, i + 1));
                assert forall|j: int| 0 <= j < i + 1 implies !is_crlf_at(s, j) by {
                    if j == 0 {
                    } else {
                        assert(!is_crlf_at(t, j - 1));
                    }
                }
            },
            None => {
                assert forall|j: int| !is_crlf_at(s, j) by {
                    if j >= 1 {
                        assert(!is_crlf_at(t, j - 1));
                    }
                }
            },
        }
    }
}

/// Appending bytes does not move an already-found first CRLF.
pub proof fn lemma_first_crlf_extend(s: Seq<u8>, ext: Seq<u8>)
    requires
        first_crlf(s) is Some,
    ensures
        first_crlf(s + ext) == first_crlf(s),
{
    let i = first_crlf(s)->Some_0;
    lemma_first_crlf(s);
    lemma_first_crlf(s + ext);
    assert(is_crlf_at(s + ext, i));
    match first_crlf(s + ext) {
        Some(k) => {
            if k < i {
                assert(is_crlf_at(s, k));
            }
            if k > i {
                assert(!is_crlf_at(s + ext, i));
            }
        },
        None => {
            assert(!is_crlf_at(s + ext, i));
        },
    }
}

/// The line before the first CRLF of `s`.
pub open spec fn line_of(s: Seq<u8>) -> Seq<u8>
    recommends
        first_crlf(s) is Some,
{
    s.subrange(0, first_crlf(s)->Some_0)
}

/// What remains of `s` after the first CRLF.
pub open spec fn rest_of(s: Seq<u8>) -> Seq<u8>
    recommends
        first_crlf(s) is Some,
{
    s.subrange(first_crlf(s)->Some_0 + 2, s.len() as int)
}

/// Finds the first CRLF pair of `buf`.
pub fn find_crlf(buf: &Vec<u8>) -> (r: Option<usize>)
    ensures
        match r {
            Some(i) => first_crlf(buf@) == Some(i as int),
            None => first_crlf(buf@) is None,
        },
{
    proof {
        lemma_first_crlf(buf@);
    }
    if buf.len() < 2 {
        return None;
    }
    let mut i: usize = 0;
    while i < buf.len() - 1
        invariant
            buf.len() >= 2,
            i <= buf.len() - 1,
            forall|j: int| 0 <= j < i ==> !is_crlf_at(buf@, j),
        decreases buf.len() - i,
    {
        if buf[i] == 13 && buf[i + 1] == 10 {
            proof {
                lemma_first_crlf(buf@);
                let f = first_crlf(buf@);
                if f is None {
                    assert(!is_crlf_at(buf@, i as int));
                } else {
                    let k = f->Some_0;
                    if k < i {
                        assert(!is_crlf_at(buf@, k));
                    }
                    if k > i {
                        assert(!is_crlf_at(buf@, i as int));
                    }
                }
            }
            return Some(i);
        }
        i = i + 1;
    }
    proof {
        lemma_first_crlf(buf@);
        assert forall|j: int| !is_crlf_at(buf@, j) implies true by {}
        if first_crlf(buf@) is Some {
            let k = first_crlf(buf@)->Some_0;
            assert(is_crlf_at(buf@, k));
            assert(!is_crlf_at(buf@, k));
        }
    }
    None
}

/// Removes and returns the first CRLF-terminated line of `buf`, if one is
/// complete.
pub fn take_line(buf: &mut Vec<u8>) -> (r: Option<Vec<u8>>)
    ensures
        match r {
            Some(line) => {
                &&& first_crlf(old(buf)@) == Some(line@.len() as int)
                &&& line@ == line_of(old(buf)@)
                &&& final(buf)@ == rest_of(old(buf)@)
            },
            None => {
                &&& first_crlf(old(buf)@) is None
                &&& final(buf)@ == old(buf)@
            },
        },
{
    let pos = find_crlf(buf);
    match pos {
        None => None,
        Some(i) => {
            proof {
                lemma_first_crlf(buf@);
                assert(is_crlf_at(buf@, i as int));
            }
            let mut line: Vec<u8> = Vec::new();
            let mut j: usize = 0;
            while j < i
                invariant
                    j <= i,
                    i + 2 <= buf@.len(),
                    buf@ == old(buf)@,
                    line@ == buf@.subrange(0, j as int),
                decreases i - j,
            {
                line.push(buf[j]);
                j = j + 1;
                proof {
                    assert(buf@.subrange(0, j as int) =~= buf@.subrange(0, j - 1).push(
                        buf@[j - 1],
                    ));
                }
            }
            let n = buf.len();
            let mut rest: Vec<u8> = Vec::new();
            let mut k: usize = i + 2;
            while k < buf.len()
                invariant
                    i + 2 <= k <= buf@.len(),
                    buf@ == old(buf)@,
                    rest@ == buf@.subrange(i + 2, k as int),
                decreases buf.len() - k,
            {
                rest.push(buf[k]);
                k = k + 1;
                proof {
                    assert(buf@.subrange(i + 2, k as int) =~= buf@.subrange(i + 2, k - 1).push(
                        buf@[k - 1],
                    ));
                }
            }
            *buf = rest;
            Some(line)
        },
    }
}

/// True when `b` is an ASCII space or horizontal tab.
pub open spec fn is_space(b: u8) -> bool {
    b == 32 || b == 9
}

/// `s` with leading and trailing ASCII blanks removed.
pub open spec fn trim_spec(s: Seq<u8>) -> Seq<u8>
    decreases s.len(),
{
    if s.len() == 0 {
        s
    } else if is_space(s[0]) {
        trim_spec(s.drop_first())
    } else if is_space(s[s.len() - 1]) {
        trim_spec(s.drop_last())
    } else {
        s
    }
}

/// Removes leading and trailing ASCII blanks.
pub fn trim_bytes(v: &Vec<u8>) -> (r: Vec<u8>)
    ensures
        r@ == trim_spec(v@),
{
    let mut lo: usize = 0;
    let mut hi: usize = v.len();
    proof {
        assert(v@.subrange(0, v@.len() as int) =~= v@);
    }
    while lo < hi && (v[lo] == 32 || v[lo] == 9)
        invariant
            lo <= hi <= v@.len(),
            trim_spec(v@) == trim_spec(v@.subrange(lo as int, hi as int)),
        decreases hi - lo,
    {
        proof {
            assert(v@.subrange(lo as int, hi as int).drop_first() =~= v@.subrange(
                lo + 1,
                hi as int,
            ));
        }
        lo = lo + 1;
    }
    while lo < hi && (v[hi - 1] == 32 || v[hi - 1] == 9)
        invariant
            lo <= hi <= v@.len(),
            trim_spec(v@) == trim_spec(v@.subrange(lo as int, hi as int)),
            lo < hi ==> !is_space(v@[lo as int]),
        decreases hi - lo,
    {
        proof {
            assert(v@.subrange(lo as int, hi as int).drop_last() =~= v@.subrange(
                lo as int,
                hi - 1,
            ));
        }
        hi = hi - 1;
    }
    let mut out: Vec<u8> = Vec::new();
    let mut i: usize = lo;
    while i < hi
        invariant
            lo <= i <= hi <= v@.len(),
            out@ == v@.subrange(lo as int, i as int),
        decreases hi - i,
    {
        out.push(v[i]);
        i = i + 1;
        proof {
            assert(v@.subrange(lo as int, i as int) =~= v@.subrange(lo as int, i - 1).push(
                v@[i - 1],
            ));
        }
    }
    proof {
        let mid = v@.subrange(lo as int, hi as int);
        if lo < hi {
            assert(!is_space(mid[0]));
            assert(!is_space(mid[mid.len() - 1]));
            assert(trim_spec(mid) == mid);
        } else {
            assert(mid.len() == 0);
            assert(trim_spec(mid) == mid);
        }
    }
    out
}

/// Position of the first occurrence of `b` in `s`, if any.
pub open spec fn first_byte(s: Seq<u8>, b: u8) -> Option<int>
    decreases s.len(),
{
    if s.len() == 0 {
        None
    } else if s[0] == b {
        Some(0int)
    } else {
        match first_byte(s.drop_first(), b) {
            Some(i) => Some(i + 1),
            None => None,
        }
    }
}

/// `first_byte` finds the least occurrence, and `None` means there is none.
pub proof fn lemma_first_byte(s: Seq<u8>, b: u8)
    ensures
        match first_byte(s, b) {
            Some(i) => 0 <= i < s.len() && s[i] == b && forall|j: int| 0 <= j < i ==> s[j] != b,
            None => forall|j: int| 0 <= j < s.len() ==> s[j] != b,
        },
    decreases s.len(),
{
    if s.len() == 0 {
    } else if s[0] == b {
    } else {
        lemma_first_byte(s.drop_first(), b);
        let t = s.drop_first();
        assert(forall|j: int| 1 <= j < s.len() ==> s[j] == t[j - 1]);
    }
}

/// Finds the first occurrence of `b` in `v`.
pub fn find_byte(v: &Vec<u8>, b: u8) -> (r: Option<usize>)
    ensures
        match r {
            Some(i) => first_byte(v@, b) == Some(i as int),
            None => first_byte(v@, b) is None,
        },
{
    proof {
        lemma_first_byte(v@, b);
    }
    let mut i: usize = 0;
    while i < v.len()
        invariant
            i <= v.len(),
            forall|j: int| 0 <= j < i ==> v@[j] != b,
        decreases v.len() - i,
    {
        if v[i] == b {
            proof {
                lemma_first_byte(v@, b);
                match first_byte(v@, b) {
                    Some(k) => {
                        if k < i {
                            assert(v@[k] != b);
                        }
                        if k > i {
                            assert(v@[i as int] != b);
                        }
                    },
                    None => {
                        assert(v@[i as int] != b);
                    },
                }
            }
            return Some(i);
        }
        i = i + 1;
    }
    proof {
        lemma_first_byte(v@, b);
        if first_byte(v@, b) is Some {
            let k = first_byte(v@, b)->Some_0;
            assert(v@[k] != b);
        }
    }
    None
}

/// Copy of `v[from..to]`.
pub fn subvec(v: &Vec<u8>, from: usize, to: usize) -> (r: Vec<u8>)
    requires
        from <= to <= v@.len(),
    ensures
        r@ == v@.subrange(from as int, to as int),
{
    let mut out: Vec<u8> = Vec::new();
    let mut i: usize = from;
    while i < to
        invariant
            from <= i <= to <= v@.len(),
            out@ == v@.subrange(from as int, i as int),
        decreases to - i,
    {
        out.push(v[i]);
        i = i + 1;
        proof {
            assert(v@.subrange(from as int, i as int) =~= v@.subrange(from as int, i - 1).push(
                v@[i - 1],
            ));
        }
    }
    out
}

/// True when every byte of `s` is an ASCII decimal digit.
pub open spec fn is_digits(s: Seq<u8>) -> bool {
    forall|i: int| 0 <= i < s.len() ==> 48 <= #[trigger] s[i] <= 57
}

/// Value of a sequence of decimal digit bytes.
pub open spec fn dec_val(s: Seq<u8>) -> nat
    decreases s.len(),
{
    if s.len() == 0 {
        0
    } else {
        dec_val(s.drop_last()) * 10 + (s.last() - 48) as nat
    }
}

/// Under `is_digits`, a prefix never has a larger value than the whole.
pub proof fn lemma_dec_val_prefix(s: Seq<u8>, j: int)
    requires
        is_digits(s),
        0 <= j <= s.len(),
    ensures
        dec_val(s.subrange(0, j)) <= dec_val(s),
    decreases s.len() - j,
{
    if j == s.len() {
        assert(s.subrange(0, j) =~= s);
    } else {
        let p = s.subrange(0, j + 1);
        assert(p.drop_last() =~= s.subrange(0, j));
        assert(dec_val(p) == dec_val(s.subrange(0, j)) * 10 + (s[j] - 48));
        lemma_dec_val_prefix(s, j + 1);
    }
}

/// Parses an unsigned decimal numeral.
pub fn parse_dec(v: &Vec<u8>) -> (r: Option<usize>)
    ensures
        match r {
            Some(n) => v@.len() > 0 && is_digits(v@) && n == dec_val(v@),
            None => v@.len() == 0 || !is_digits(v@) || dec_val(v@) > usize::MAX,
        },
{
    if v.len() == 0 {
        return None;
    }
    let mut acc: usize = 0;
    let mut i: usize = 0;
    while i < v.len()
        invariant
            i <= v@.len(),
            is_digits(v@.subrange(0, i as int)),
            acc == dec_val(v@.subrange(0, i as int)),
        decreases v.len() - i,
    {
        let b = v[i];
        if b < 48 || b > 57 {
            proof {
                assert(!is_digits(v@));
            }
            return None;
        }
        let d = (b - 48) as usize;
        if acc > (usize::MAX - d) / 10 {
            proof {
                let p = v@.subrange(0, i + 1);
                assert(p.drop_last() =~= v@.subrange(0, i as int));
                assert(dec_val(p) == acc * 10 + d);
                assert(acc * 10 + d > usize::MAX) by (nonlinear_arith)
                    requires
                        acc > (usize::MAX - d) / 10,
                        d <= 9,
                ;
                if is_digits(v@) {
                    lemma_dec_val_prefix(v@, i + 1);
                }
            }
            return None;
        }
        proof {
            assert(acc * 10 + d <= usize::MAX) by (nonlinear_arith)
                requires
                    acc <= (usize::MAX - d) / 10,
                    d <= 9,
            ;
        }
        acc = acc * 10 + d;
        i = i + 1;
        proof {
            assert(v@.subrange(0, i as int).drop_last() =~= v@.subrange(0, i - 1));
            assert(v@.subrange(0, i as int).last() == b);
        }
    }
    proof {
        assert(v@.subrange(0, v@.len() as int) =~= v@);
    }
    Some(acc)
}

/// True when `b` is an ASCII hexadecimal digit.
pub open spec fn is_hex_digit(b: u8) -> bool {
    (48 <= b <= 57) || (97 <= b <= 102) || (65 <= b <= 70)
}

/// Value of one hexadecimal digit byte.
pub open spec fn hex_digit_val(b: u8) -> nat {
    if 48 <= b <= 57 {
        (b - 48) as nat
    } else if 97 <= b <= 102 {
        (b - 87) as nat
    } else if 65 <= b <= 70 {
        (b - 55) as nat
    } else {
        0
    }
}

/// True when every byte of `s` is an ASCII hexadecimal digit.
pub open spec fn is_hex_digits(s: Seq<u8>) -> bool {
    forall|i: int| 0 <= i < s.len() ==> is_hex_digit(#[trigger] s[i])
}

/// Value of a sequence of hexadecimal digit bytes.
pub open spec fn hex_val(s: Seq<u8>) -> nat
    decreases s.len(),
{
    if s.len() == 0 {
        0
    } else {
        hex_val(s.drop_last()) * 16 + hex_digit_val(s.last())
    }
}

/// Under `is_hex_digits`, a prefix never has a larger value than the whole.
pub proof fn lemma_hex_val_prefix(s: Seq<u8>, j: int)
    requires
        is_hex_digits(s),
        0 <= j <= s.len(),
    ensures
        hex_val(s.subrange(0, j)) <= hex_val(s),
    decreases s.len() - j,
{
    if j == s.len() {
        assert(s.subrange(0, j) =~= s);
    } else {
        let p = s.subrange(0, j + 1);
        assert(p.drop_last() =~= s.subrange(0, j));
        assert(hex_val(p) == hex_val(s.subrange(0, j)) * 16 + hex_digit_val(s[j]));
        lemma_hex_val_prefix(s, j + 1);
    }
}

/// Parses an unsigned hexadecimal numeral.
pub fn parse_hex(v: &Vec<u8>) -> (r: Option<usize>)
    ensures
        match r {
            Some(n) => v@.len() > 0 && is_hex_digits(v@) && n == hex_val(v@),
            None => v@.len() == 0 || !is_hex_digits(v@) || hex_val(v@) > usize::MAX,
        },
{
    if v.len() == 0 {
        return None;
    }
    let mut acc: usize = 0;
    let mut i: usize = 0;
    while i < v.len()
        invariant
            i <= v@.len(),
            is_hex_digits(v@.subrange(0, i as int)),
            acc == hex_val(v@.subrange(0, i as int)),
        decreases v.len() - i,
    {
        let b = v[i];
        let d: usize;
        if 48 <= b && b <= 57 {
            d = (b - 48) as usize;
        } else if 97 <= b && b <= 102 {
            d = (b - 87) as usize;
        } else if 65 <= b && b <= 70 {
            d = (b - 55) as usize;
        } else {
            proof {
                assert(!is_hex_digit(v@[i as int]));
                assert(!is_hex_digits(v@));
            }
            return None;
        }
        if acc > (usize::MAX - d) / 16 {
            proof {
                let p = v@.subrange(0, i + 1);
                assert(p.drop_last() =~= v@.subrange(0, i as int));
                assert(hex_val(p) == acc * 16 + d);
                assert(acc * 16 + d > usize::MAX) by (nonlinear_arith)
                    requires
                        acc > (usize::MAX - d) / 16,
                        d <= 15,
                ;
                if is_hex_digits(v@) {
                    lemma_hex_val_prefix(v@, i + 1);
                }
            }
            return None;
        }
        proof {
            assert(acc * 16 + d <= usize::MAX) by (nonlinear_arith)
                requires
                    acc <= (usize::MAX - d) / 16,
                    d <= 15,
            ;
        }
        acc = acc * 16 + d;
        i = i + 1;
        proof {
            assert(v@.subrange(0, i as int).drop_last() =~= v@.subrange(0, i - 1));
            assert(v@.subrange(0, i as int).last() == b);
        }
    }
    proof {
        assert(v@.subrange(0, v@.len() as int) =~= v@);
    }
    Some(acc)
}

/// Decimal numeral of `n`, as digit bytes without leading zeros.
pub open spec fn dec_bytes(n: nat) -> Seq<u8>
    decreases n,
{
    if n < 10 {
        seq![(48 + n) as u8]
    } else {
        dec_bytes(n / 10) + seq![(48 + n % 10) as u8]
    }
}

/// Writes `n` in decimal.
pub fn to_dec(n: u64) -> (r: Vec<u8>)
    ensures
        r@ == dec_bytes(n as nat),
    decreases n,
{
    if n < 10 {
        let mut v: Vec<u8> = Vec::new();
        v.push(48 + n as u8);
        proof {
            assert(v@ =~= dec_bytes(n as nat));
        }
        v
    } else {
        let mut v = to_dec(n / 10);
        v.push(48 + (n % 10) as u8);
        proof {
            assert(v@ =~= dec_bytes(n as nat));
        }
        v
    }
}

/// Upper-case hexadecimal numeral of `n`, without leading zeros.
pub open spec fn hex_bytes(n: nat) -> Seq<u8>
    decreases n,
{
    if n < 10 {
        seq![(48 + n) as u8]
    } else if n < 16 {
        seq![(55 + n) as u8]
    } else if n % 16 < 10 {
        hex_bytes(n / 16) + seq![(48 + n % 16) as u8]
    } else {
        hex_bytes(n / 16) + seq![(55 + n % 16) as u8]
    }
}

/// Writes `n` in upper-case hexadecimal, as `{:X}` formatting does.
pub fn to_hex(n: u64) -> (r: Vec<u8>)
    ensures
        r@ == hex_bytes(n as nat),
    decreases n,
{
    if n < 16 {
        let mut v: Vec<u8> = Vec::new();
        if n < 10 {
            v.push(48 + n as u8);
        } else {
            v.push(55 + n as u8);
        }
        proof {
            assert(v@ =~= hex_bytes(n as nat));
        }
        v
    } else {
        let mut v = to_hex(n / 16);
        let d = (n % 16) as u8;
        if d < 10 {
            v.push(48 + d);
        } else {
            v.push(55 + d);
        }
        proof {
            assert(v@ =~= hex_bytes(n as nat));
        }
        v
    }
}

/// Decimal numeral of `n`, left-padded with zeros to at least `w` digits.
pub open spec fn dec_pad(n: nat, w: nat) -> Seq<u8> {
    if dec_bytes(n).len() >= w {
        dec_bytes(n)
    } else {
        Seq::new((w - dec_bytes(n).len()) as nat, |i: int| 48u8) + dec_bytes(n)
    }
}

/// Writes `n` in decimal, zero-padded to at least `w` digits.
pub fn to_dec_pad(n: u64, w: usize) -> (r: Vec<u8>)
    ensures
        r@ == dec_pad(n as nat, w as nat),
{
    let d = to_dec(n);
    if d.len() >= w {
        return d;
    }
    let pad = w - d.len();
    let mut out: Vec<u8> = Vec::new();
    let mut i: usize = 0;
    while i < pad
        invariant
            i <= pad,
            out@ == Seq::new(i as nat, |k: int| 48u8),
        decreases pad - i,
    {
        out.push(48);
        i = i + 1;
        proof {
            assert(out@ =~= Seq::new(i as nat, |k: int| 48u8));
        }
    }
    extend_bytes(&mut out, &d);
    out
}

/// Position of the first ASCII blank in `s`, if any.
pub open spec fn first_space(s: Seq<u8>) -> Option<int>
    decreases s.len(),
{
    if s.len() == 0 {
        None
    } else if is_space(s[0]) {
        Some(0int)
    } else {
        match first_space(s.drop_first()) {
            Some(i) => Some(i + 1),
            None => None,
        }
    }
}

/// `first_space` finds the least blank, and `None` means there is none.
pub proof fn lemma_first_space(s: Seq<u8>)
    ensures
        match first_space(s) {
            Some(i) => 0 <= i < s.len() && is_space(s[i]) && forall|j: int|
                0 <= j < i ==> !is_space(#[trigger] s[j]),
            None => forall|j: int| 0 <= j < s.len() ==> !is_space(#[trigger] s[j]),
        },
    decreases s.len(),
{
    if s.len() == 0 {
    } else if is_space(s[0]) {
    } else {
        lemma_first_space(s.drop_first());
        let t = s.drop_first();
        assert(forall|j: int| 1 <= j < s.len() ==> s[j] == t[j - 1]);
    }
}

/// The blank-separated tokens of `s`, in order; blanks are ASCII space and
/// tab, and runs of blanks count as one separator.
pub open spec fn tokens(s: Seq<u8>) -> Seq<Seq<u8>>
    decreases s.len(),
{
    if s.len() == 0 {
        seq![]
    } else if is_space(s[0]) {
        tokens(s.drop_first())
    } else {
        let p = match first_space(s) {
            None => s.len() as int,
            Some(q) => q,
        };
        if 1 <= p <= s.len() {
            seq![s.subrange(0, p)] + tokens(s.subrange(p, s.len() as int))
        } else {
            seq![s]
        }
    }
}

/// Splits `v` into its blank-separated tokens.
pub fn tokenize(v: &Vec<u8>) -> (r: Vec<Vec<u8>>)
    ensures
        r@.map_values(|t: Vec<u8>| t@) == tokens(v@),
{
    let n = v.len();
    let mut out: Vec<Vec<u8>> = Vec::new();
    let mut i: usize = 0;
    proof {
        assert(v@.subrange(0, n as int) =~= v@);
    }
    while i < n
        invariant
            i <= n,
            n == v@.len(),
            out@.map_values(|t: Vec<u8>| t@) + tokens(v@.subrange(i as int, n as int)) == tokens(
                v@,
            ),
        decreases n - i,
    {
        let b = v[i];
        if b == 32 || b == 9 {
            proof {
                let cur = v@.subrange(i as int, n as int);
                assert(cur.drop_first() =~= v@.subrange(i + 1, n as int));
            }
            i = i + 1;
        } else {
            let mut j: usize = i;
            while j < n && v[j] != 32 && v[j] != 9
                invariant
                    i <= j <= n,
                    n == v@.len(),
                    forall|k: int| i <= k < j ==> !is_space(#[trigger] v@[k]),
                decreases n - j,
            {
                j = j + 1;
            }
            let tok = subvec(v, i, j);
            proof {
                let cur = v@.subrange(i as int, n as int);
                lemma_first_space(cur);
                assert(!is_space(cur[0]));
                if j < n {
                    assert(is_space(v@[j as int]));
                    assert(is_space(cur[j - i]));
                    match first_space(cur) {
                        Some(p) => {
                            if p < j - i {
                                assert(!is_space(v@[i + p]));
                                assert(is_space(cur[p]));
                            }
                            if p > j - i {
                                assert(!is_space(cur[j - i]));
                            }
                            assert(p == j - i);
                            assert(cur.subrange(0, p) =~= v@.subrange(i as int, j as int));
                            assert(cur.subrange(p, cur.len() as int) =~= v@.subrange(
                                j as int,
                                n as int,
                            ));
                            assert(tokens(cur) == seq![tok@] + tokens(
                                v@.subrange(j as int, n as int),
                            ));
                        },
                        None => {
                            assert(!is_space(cur[j - i]));
                        },
                    }
                } else {
                    match first_space(cur) {
                        Some(p) => {
                            assert(is_space(cur[p]));
                            assert(!is_space(v@[i + p]));
                        },
                        None => {},
                    }
                    let p = cur.len() as int;
                    assert(cur.subrange(0, p) =~= cur);
                    assert(cur.subrange(p, p).len() == 0);
                    assert(tokens(cur.subrange(p, p)) =~= Seq::<Seq<u8>>::empty());
                    assert(tok@ =~= cur);
                    assert(tokens(cur) =~= seq![tok@] + tokens(v@.subrange(j as int, n as int)));
                }
            }
            let ghost prev = out@;
            out.push(tok);
            proof {
                assert(out@.map_values(|t: Vec<u8>| t@) =~= prev.map_values(|t: Vec<u8>| t@)
                    + seq![tok@]);
            }
            i = j;
        }
    }
    proof {
        assert(v@.subrange(n as int, n as int).len() == 0);
    }
    out
}

/// The CRLF line ending.
pub open spec fn crlf() -> Seq<u8> {
    seq![13u8, 10u8]
}

/// Decimal numerals consist of digit bytes.
pub proof fn lemma_dec_bytes_ascii(n: nat)
    ensures
        forall|i: int| 0 <= i < dec_bytes(n).len() ==> 48 <= #[trigger] dec_bytes(n)[i] <= 57,
    decreases n,
{
    if n < 10 {
        assert(dec_bytes(n) =~= seq![(48 + n) as u8]);
    } else {
        lemma_dec_bytes_ascii(n / 10);
        let d = dec_bytes(n);
        let p = dec_bytes(n / 10);
        assert(d == p + seq![(48 + n % 10) as u8]);
        assert forall|i: int| 0 <= i < d.len() implies 48 <= #[trigger] d[i] <= 57 by {
            if i < p.len() {
                assert(d[i] == p[i]);
            } else {
                assert(d[i] == (48 + n % 10) as u8);
            }
        }
    }
}

/// Every all-ASCII byte sequence is valid UTF-8.
pub proof fn lemma_ascii_valid_utf8(s: Seq<u8>)
    requires
        forall|i: int| 0 <= i < s.len() ==> #[trigger] s[i] < 128,
    ensures
        valid_utf8(s),
{
    assert(forall|i: int|
        0 <= i < s.len() ==> vstd::utf8::is_leading_byte_width_1(#[trigger] s[i]));
    assert(s.subrange(0, 0).len() == 0);
    assert(vstd::utf8::partial_valid_utf8(s, 0));
    vstd::utf8::partial_valid_utf8_extend_ascii_block(s, 0, s.len() as int);
    assert(s.subrange(0, s.len() as int) =~= s);
}

/// Relies on `String::from_utf8`: it succeeds exactly on valid UTF-8 input
/// and the resulting string has exactly those bytes.
#[verifier::external_body]
pub fn string_from_utf8(v: Vec<u8>) -> (r: Option<String>)
    ensures
        r is Some <==> valid_utf8(v@),
        r matches Some(s) ==> string_bytes(s) == v@,
{
    String::from_utf8(v).ok()
}

/// Builds the `String` with the given all-ASCII bytes.
pub fn ascii_to_string(v: Vec<u8>) -> (r: String)
    requires
        forall|i: int| 0 <= i < v@.len() ==> #[trigger] v@[i] < 128,
    ensures
        string_bytes(r) == v@,
{
    proof {
        lemma_ascii_valid_utf8(v@);
    }
    let ghost gv = v@;
    match string_from_utf8(v) {
        Some(s) => s,
        None => {
            proof {
                assert(false);
            }
            String::new()
        },
    }
}


/// The pieces of `s` split on every occurrence of `b`.
pub open spec fn byte_split(s: Seq<u8>, b: u8) -> Seq<Seq<u8>>
    decreases s.len(),
{
    match first_byte(s, b) {
        Some(p) => if 0 <= p < s.len() {
            seq![s.subrange(0, p)] + byte_split(s.subrange(p + 1, s.len() as int), b)
        } else {
            seq![s]
        },
        None => seq![s],
    }
}

/// Splits `v` on every occurrence of `b`.
pub fn split_on(v: &Vec<u8>, b: u8) -> (r: Vec<Vec<u8>>)
    ensures
        r@.map_values(|t: Vec<u8>| t@) == byte_split(v@, b),
{
    let mut out: Vec<Vec<u8>> = Vec::new();
    let mut rest: Vec<u8> = subvec(v, 0, v.len());
    proof {
        assert(rest@ =~= v@);
        assert(out@.map_values(|t: Vec<u8>| t@) + byte_split(rest@, b) =~= byte_split(v@, b));
    }
    loop
        invariant
            out@.map_values(|t: Vec<u8>| t@) + byte_split(rest@, b) == byte_split(v@, b),
        ensures
            out@.map_values(|t: Vec<u8>| t@) == byte_split(v@, b),
        decreases rest@.len(),
    {
        let pos = find_byte(&rest, b);
        match pos {
            Some(p) => {
                proof {
                    lemma_first_byte(rest@, b);
                }
                let rl = rest.len();
                let piece = subvec(&rest, 0, p);
                let nrest = subvec(&rest, p + 1, rl);
                let ghost prev = out@;
                out.push(piece);
                proof {
                    assert(byte_split(rest@, b) == seq![rest@.subrange(0, p as int)] + byte_split(
                        rest@.subrange(p + 1, rest@.len() as int),
                        b,
                    ));
                    assert(out@.map_values(|t: Vec<u8>| t@) =~= prev.map_values(|t: Vec<u8>| t@)
                        + seq![piece@]);
                    assert(out@.map_values(|t: Vec<u8>| t@) + byte_split(nrest@, b)
                        =~= prev.map_values(|t: Vec<u8>| t@) + byte_split(rest@, b));
                }
                rest = nrest;
            },
            None => {
                let ghost prev = out@;
                out.push(rest);
                proof {
                    assert(byte_split(out@[prev.len() as int]@, b) == seq![
                        out@[prev.len() as int]@,
                    ]);
                    assert(prev.map_values(|t: Vec<u8>| t@) + seq![out@[prev.len() as int]@]
                        =~= byte_split(v@, b));
                    assert(out@.map_values(|t: Vec<u8>| t@) =~= prev.map_values(|t: Vec<u8>| t@)
                        + seq![out@[prev.len() as int]@]);
                }
                return out;
            },
        }
    }
}


/// True when `p` is a prefix of `s`.
pub open spec fn starts_with(s: Seq<u8>, p: Seq<u8>) -> bool {
    p.len() <= s.len() && s.subrange(0, p.len() as int) == p
}

/// Checks whether `v` starts with the bytes of `p`.
pub fn has_prefix(v: &Vec<u8>, p: &str) -> (r: bool)
    ensures
        r == starts_with(v@, p.spec_bytes()),
{
    let pb = str_to_bytes(p);
    if pb.len() > v.len() {
        return false;
    }
    let head = subvec(v, 0, pb.len());
    bytes_eq(&head, &pb)
}

/// In valid UTF-8, a position whose predecessors are all ASCII is a
/// character boundary, and a one-byte cut there keeps both sides valid.
pub proof fn lemma_ascii_prefix_split(s: Seq<u8>, i: int)
    requires
        valid_utf8(s),
        0 <= i <= s.len(),
        forall|j: int| 0 <= j < i ==> #[trigger] s[j] < 128,
    ensures
        vstd::utf8::is_char_boundary(s, i),
        valid_utf8(s.subrange(0, i)),
        valid_utf8(s.subrange(i, s.len() as int)),
    decreases i,
{
    if i == 0 {
        vstd::utf8::is_char_boundary_start_end_of_seq(s);
        assert(s.subrange(0, 0).len() == 0);
        assert(s.subrange(0, s.len() as int) =~= s);
    } else {
        lemma_ascii_prefix_split(s, i - 1);
        let t = s.subrange(i - 1, s.len() as int);
        assert(t[0] == s[i - 1]);
        assert(t[0] < 128);
        if i < s.len() {
            // The byte after an ASCII byte cannot be a continuation byte.
            assert(vstd::utf8::length_of_first_scalar(t) == 1) by {
                assert(vstd::utf8::is_leading_byte_width_1(t[0]));
            }
            assert(vstd::utf8::valid_first_scalar(t));
            let t1 = vstd::utf8::pop_first_scalar(t);
            assert(valid_utf8(t1));
            assert(t1 =~= s.subrange(i, s.len() as int));
            if t1.len() > 0 {
                vstd::utf8::is_char_boundary_start_end_of_seq(t1);
                vstd::utf8::is_char_boundary_iff_not_is_continuation_byte(t, 1);
                assert(vstd::utf8::is_char_boundary(t, 1)) by {
                    vstd::utf8::is_char_boundary_start_end_of_seq(t1);
                    assert(vstd::utf8::is_char_boundary(t1, 0));
                }
                assert(!vstd::utf8::is_continuation_byte(t[1]));
                assert(s[i] == t[1]);
                vstd::utf8::is_char_boundary_iff_not_is_continuation_byte(s, i);
            } else {
                vstd::utf8::is_char_boundary_start_end_of_seq(s);
                assert(i == s.len());
            }
        } else {
            vstd::utf8::is_char_boundary_start_end_of_seq(s);
        }
        vstd::utf8::valid_utf8_split(s, i);
    }
}

/// In valid UTF-8, cutting out one ASCII byte keeps both sides valid.
pub proof fn lemma_ascii_cut(s: Seq<u8>, p: int)
    requires
        valid_utf8(s),
        0 <= p < s.len(),
        s[p] < 128,
    ensures
        valid_utf8(s.subrange(0, p)),
        valid_utf8(s.subrange(p + 1, s.len() as int)),
{
    vstd::utf8::is_char_boundary_iff_not_is_continuation_byte(s, p);
    assert(!vstd::utf8::is_continuation_byte(s[p]));
    assert(vstd::utf8::is_char_boundary(s, p));
    vstd::utf8::valid_utf8_split(s, p);
    let t = s.subrange(p, s.len() as int);
    assert(t[0] == s[p]);
    lemma_ascii_prefix_split(t, 1);
    assert(t.subrange(1, t.len() as int) =~= s.subrange(p + 1, s.len() as int));
}

/// Every piece of a split on an ASCII byte of valid UTF-8 is valid UTF-8.
pub proof fn lemma_byte_split_valid(s: Seq<u8>, b: u8)
    requires
        valid_utf8(s),
        b < 128,
    ensures
        forall|i: int|
            0 <= i < byte_split(s, b).len() ==> valid_utf8(#[trigger] byte_split(s, b)[i]),
    decreases s.len(),
{
    lemma_first_byte(s, b);
    match first_byte(s, b) {
        None => {
            assert(byte_split(s, b) == seq![s]);
        },
        Some(p) => {
            lemma_ascii_cut(s, p);
            let rest = s.subrange(p + 1, s.len() as int);
            lemma_byte_split_valid(rest, b);
            assert(byte_split(s, b) == seq![s.subrange(0, p)] + byte_split(rest, b));
            assert forall|i: int| 0 <= i < byte_split(s, b).len() implies valid_utf8(
                #[trigger] byte_split(s, b)[i],
            ) by {
                if i == 0 {
                    assert(byte_split(s, b)[0] == s.subrange(0, p));
                } else {
                    assert(byte_split(s, b)[i] == byte_split(rest, b)[i - 1]);
                }
            }
        },
    }
}


/// In valid UTF-8, the end of a valid prefix is a character boundary, so
/// splitting there keeps the suffix valid too.
pub proof fn lemma_valid_prefix_split(s: Seq<u8>, i: int)
    requires
        valid_utf8(s),
        0 <= i <= s.len(),
        valid_utf8(s.subrange(0, i)),
    ensures
        vstd::utf8::is_char_boundary(s, i),
        valid_utf8(s.subrange(i, s.len() as int)),
    decreases i,
{
    if i == 0 {
        vstd::utf8::is_char_boundary_start_end_of_seq(s);
        assert(s.subrange(0, s.len() as int) =~= s);
    } else {
        let p = s.subrange(0, i);
        assert(p.len() > 0);
        assert(vstd::utf8::valid_first_scalar(p));
        let lw = vstd::utf8::length_of_first_scalar(p);
        assert(1 <= lw <= 4);
        assert(lw <= p.len());
        // The first scalar of the prefix and of the whole agree: the
        // decision bytes coincide.
        assert(forall|j: int| 0 <= j < i ==> p[j] == s[j]);
        assert(vstd::utf8::length_of_first_scalar(s) == lw);
        assert(vstd::utf8::valid_first_scalar(s)) by {
            assert(s.len() >= p.len());
        }
        let ps = vstd::utf8::pop_first_scalar(s);
        let pp = vstd::utf8::pop_first_scalar(p);
        assert(pp =~= ps.subrange(0, i - lw));
        assert(valid_utf8(ps));
        assert(valid_utf8(pp));
        lemma_valid_prefix_split(ps, i - lw);
        assert(vstd::utf8::is_char_boundary(s, i)) by {
            reveal_with_fuel(vstd::utf8::is_char_boundary, 2);
        }
        vstd::utf8::valid_utf8_split(s, i);
    }
}

} // verus!
