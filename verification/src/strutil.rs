//! Small verified helpers on strings and byte slices that the rest of the
//! crate shares: equality, prefix and containment tests over UTF-8 bytes.

use vstd::prelude::*;
use vstd::string::StringSliceAdditionalSpecFns;

verus! {

broadcast use vstd::utf8::encode_utf8_decode_utf8;

/// Byte-for-byte equality of two slices.
pub fn bytes_eq(a: &[u8], b: &[u8]) -> (r: bool)
    ensures
        r == (a@ == b@),
{
    if a.len() != b.len() {
        return false;
    }
    let n = a.len();
    let mut i: usize = 0;
    while i < n
        invariant
            n == a@.len() == b@.len(),
            i <= n,
            forall|j: int| 0 <= j < i ==> a@[j] == b@[j],
        decreases n - i,
    {
        if a[i] != b[i] {
            return false;
        }
        i += 1;
    }
    proof {
        assert(a@ =~= b@);
    }
    true
}

/// String equality by content.
pub fn str_eq(a: &str, b: &str) -> (r: bool)
    ensures
        r == (a@ == b@),
{
    let r = bytes_eq(a.as_bytes(), b.as_bytes());
    proof {
        if a.spec_bytes() == b.spec_bytes() {
            assert(vstd::utf8::decode_utf8(a.spec_bytes()) == vstd::utf8::decode_utf8(
                b.spec_bytes(),
            ));
            assert(a@ == b@);
        } else {
            assert(a@ != b@);
        }
    }
    r
}

/// Does `a` start with `p`, byte-wise?
pub open spec fn has_prefix(a: Seq<u8>, p: Seq<u8>) -> bool {
    p.len() <= a.len() && a.subrange(0, p.len() as int) == p
}

/// Prefix test on byte slices.
pub fn starts_with(a: &[u8], p: &[u8]) -> (r: bool)
    ensures
        r == has_prefix(a@, p@),
{
    if p.len() > a.len() {
        return false;
    }
    let n = p.len();
    let mut i: usize = 0;
    while i < n
        invariant
            n == p@.len() <= a@.len(),
            i <= n,
            forall|j: int| 0 <= j < i ==> a@[j] == p@[j],
        decreases n - i,
    {
        if a[i] != p[i] {
            proof {
                assert(a@.subrange(0, n as int)[i as int] != p@[i as int]);
            }
            return false;
        }
        i += 1;
    }
    proof {
        assert(a@.subrange(0, n as int) =~= p@);
    }
    true
}

/// Does `a` contain byte `b` anywhere?
pub open spec fn contains_byte(a: Seq<u8>, b: u8) -> bool {
    exists|i: int| 0 <= i < a.len() && a[i] == b
}

/// Containment test for a single byte.
pub fn has_byte(a: &[u8], b: u8) -> (r: bool)
    ensures
        r == contains_byte(a@, b),
{
    let n = a.len();
    let mut i: usize = 0;
    while i < n
        invariant
            n == a@.len(),
            i <= n,
            forall|j: int| 0 <= j < i ==> a@[j] != b,
        decreases n - i,
    {
        if a[i] == b {
            return true;
        }
        i += 1;
    }
    false
}

/// Does `a` contain `p` as a contiguous subrange starting at some offset?
pub open spec fn contains_seq(a: Seq<u8>, p: Seq<u8>) -> bool {
    exists|i: int| 0 <= i <= a.len() - p.len() && #[trigger] a.subrange(i, i + p.len()) == p
}

/// Substring (byte subsequence) containment test.
pub fn has_seq(a: &[u8], p: &[u8]) -> (r: bool)
    ensures
        r == contains_seq(a@, p@),
{
    let n = a.len();
    let plen = p.len();
    if plen > n {
        return false;
    }
    if plen == 0 {
        proof {
            let ii: int = 0;
            assert(a@.subrange(ii, ii + p@.len()) =~= p@);
            assert(contains_seq(a@, p@));
        }
        return true;
    }
    let last = n - plen;
    let mut i: usize = 0;
    while i <= last
        invariant
            n == a@.len(),
            plen == p@.len(),
            1 <= plen <= n,
            last == n - plen,
            i <= last + 1,
            forall|j: int| 0 <= j < i ==> #[trigger] a@.subrange(j, j + p@.len()) != p@,
        decreases last + 1 - i,
    {
        let mut k: usize = 0;
        let mut all: bool = true;
        while k < plen
            invariant
                n == a@.len(),
                plen == p@.len(),
                i + plen <= n,
                k <= plen,
                all <==> (forall|j: int| 0 <= j < k ==> a@[i + j] == p@[j]),
            decreases plen - k,
        {
            if a[i + k] != p[k] {
                all = false;
                k = plen;
            } else {
                proof {
                    assert(a@[i + k] == p@[k as int]);
                }
                k += 1;
            }
        }
        if all {
            proof {
                assert(a@.subrange(i as int, i + p@.len()) =~= p@);
            }
            return true;
        }
        proof {
            assert(a@.subrange(i as int, i + p@.len()) != p@) by {
                let kk = choose|j: int| 0 <= j < p@.len() && a@[i + j] != p@[j];
                assert(a@.subrange(i as int, i + p@.len())[kk] == a@[i + kk]);
            }
        }
        i += 1;
    }
    proof {
        assert forall|ii: int| 0 <= ii <= a@.len() - p@.len() implies #[trigger] a@.subrange(
            ii,
            ii + p@.len(),
        ) != p@ by {
            assert(ii < i);
        }
    }
    false
}


/// Relies on `str::chars`: the iterator yields exactly the text's
/// characters, in order.
#[verifier::external_body]
pub fn str_chars(s: &str) -> (r: Vec<char>)
    ensures
        r@ == s@,
{
    s.chars().collect()
}

/// Relies on `String`'s `FromIterator<char>` impl: collecting characters
/// builds the string of exactly those characters, in order.
#[verifier::external_body]
pub fn chars_to_string(v: &Vec<char>) -> (r: String)
    ensures
        r@ == v@,
{
    v.iter().collect()
}

/// Character-for-character equality of two char slices.
pub fn chars_eq(a: &[char], b: &[char]) -> (r: bool)
    ensures
        r == (a@ == b@),
{
    if a.len() != b.len() {
        return false;
    }
    let n = a.len();
    let mut i: usize = 0;
    while i < n
        invariant
            n == a@.len() == b@.len(),
            i <= n,
            forall|j: int| 0 <= j < i ==> a@[j] == b@[j],
        decreases n - i,
    {
        if a[i] != b[i] {
            return false;
        }
        i += 1;
    }
    proof {
        assert(a@ =~= b@);
    }
    true
}

/// Does the char sequence start with the given prefix?
pub open spec fn has_char_prefix(a: Seq<char>, p: Seq<char>) -> bool {
    p.len() <= a.len() && a.subrange(0, p.len() as int) == p
}

/// Prefix test on char slices.
pub fn starts_with_chars(a: &[char], p: &[char]) -> (r: bool)
    ensures
        r == has_char_prefix(a@, p@),
{
    if p.len() > a.len() {
        return false;
    }
    let n = p.len();
    let mut i: usize = 0;
    while i < n
        invariant
            n == p@.len() <= a@.len(),
            i <= n,
            forall|j: int| 0 <= j < i ==> a@[j] == p@[j],
        decreases n - i,
    {
        if a[i] != p[i] {
            proof {
                assert(a@.subrange(0, n as int)[i as int] != p@[i as int]);
            }
            return false;
        }
        i += 1;
    }
    proof {
        assert(a@.subrange(0, n as int) =~= p@);
    }
    true
}

/// Does the char sequence contain the given character?
pub open spec fn contains_char(a: Seq<char>, c: char) -> bool {
    exists|i: int| 0 <= i < a.len() && a[i] == c
}

/// Containment test for one character.
pub fn has_char(a: &[char], c: char) -> (r: bool)
    ensures
        r == contains_char(a@, c),
{
    let n = a.len();
    let mut i: usize = 0;
    while i < n
        invariant
            n == a@.len(),
            i <= n,
            forall|j: int| 0 <= j < i ==> a@[j] != c,
        decreases n - i,
    {
        if a[i] == c {
            return true;
        }
        i += 1;
    }
    false
}

} // verus!
