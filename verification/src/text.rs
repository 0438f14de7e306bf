//! The order of names, and text assembled from parts.

use vstd::prelude::*;
use vstd::string::{StrSliceExecFns, StringSliceAdditionalSpecFns};
use vstd::utf8::encode_utf8;

verus! {

/// Compares two byte strings from position `i` on, byte by byte: `-1`
/// where the first is smaller, `1` where it is larger, `0` where they are
/// the same; a proper prefix is smaller than what it is a prefix of.
pub open spec fn bytes_order_from(a: Seq<u8>, b: Seq<u8>, i: int) -> int
    decreases a.len() - i,
{
    if i < 0 {
        0
    } else if i >= a.len() {
        if i >= b.len() {
            0
        } else {
            -1
        }
    } else if i >= b.len() {
        1
    } else if a[i] < b[i] {
        -1
    } else if a[i] > b[i] {
        1
    } else {
        bytes_order_from(a, b, i + 1)
    }
}

/// The order of names: that of their UTF-8 encodings, byte by byte.
pub open spec fn name_order(a: Seq<char>, b: Seq<char>) -> int {
    bytes_order_from(encode_utf8(a), encode_utf8(b), 0)
}

proof fn lemma_bytes_order_sign(a: Seq<u8>, b: Seq<u8>, i: int)
    ensures
        -1 <= bytes_order_from(a, b, i) <= 1,
    decreases a.len() - i,
{
    if 0 <= i < a.len() && i < b.len() && a[i] == b[i] {
        lemma_bytes_order_sign(a, b, i + 1);
    }
}

proof fn lemma_bytes_order_flip(a: Seq<u8>, b: Seq<u8>, i: int)
    ensures
        bytes_order_from(b, a, i) == -bytes_order_from(a, b, i),
    decreases a.len() - i,
{
    if 0 <= i < a.len() && i < b.len() && a[i] == b[i] {
        lemma_bytes_order_flip(a, b, i + 1);
    }
}

proof fn lemma_bytes_order_zero(a: Seq<u8>, b: Seq<u8>, i: int)
    requires
        0 <= i <= a.len(),
        i <= b.len(),
        bytes_order_from(a, b, i) == 0,
    ensures
        a.len() == b.len(),
        forall|j: int| i <= j < a.len() ==> a[j] == b[j],
    decreases a.len() - i,
{
    if i < a.len() && i < b.len() && a[i] == b[i] {
        lemma_bytes_order_zero(a, b, i + 1);
    }
}

proof fn lemma_bytes_order_same(a: Seq<u8>, i: int)
    ensures
        bytes_order_from(a, a, i) == 0,
    decreases a.len() - i,
{
    if 0 <= i < a.len() {
        lemma_bytes_order_same(a, i + 1);
    }
}

proof fn lemma_bytes_order_chain(a: Seq<u8>, b: Seq<u8>, c: Seq<u8>, i: int)
    requires
        bytes_order_from(a, b, i) <= 0,
        bytes_order_from(b, c, i) <= 0,
    ensures
        bytes_order_from(a, c, i) <= 0,
        bytes_order_from(a, c, i) == 0 ==> bytes_order_from(a, b, i) == 0 && bytes_order_from(
            b,
            c,
            i,
        ) == 0,
    decreases a.len() - i,
{
    if 0 <= i < a.len() && i < b.len() && i < c.len() && a[i] == b[i] && b[i] == c[i] {
        lemma_bytes_order_chain(a, b, c, i + 1);
    }
}

/// `name_order` takes the values `-1`, `0` and `1`, and `0` on equal
/// names only.
pub proof fn lemma_name_order_zero(a: Seq<char>, b: Seq<char>)
    ensures
        -1 <= name_order(a, b) <= 1,
        name_order(a, b) == 0 <==> a == b,
{
    broadcast use vstd::utf8::encode_utf8_decode_utf8;

    let x = encode_utf8(a);
    let y = encode_utf8(b);
    lemma_bytes_order_sign(x, y, 0);
    if name_order(a, b) == 0 {
        lemma_bytes_order_zero(x, y, 0);
        assert(x =~= y);
        assert(vstd::utf8::decode_utf8(x) == a);
        assert(vstd::utf8::decode_utf8(y) == b);
    }
    if a == b {
        lemma_bytes_order_same(x, 0);
    }
}

/// Exchanging the two names negates `name_order`.
pub proof fn lemma_name_order_flip(a: Seq<char>, b: Seq<char>)
    ensures
        name_order(b, a) == -name_order(a, b),
{
    lemma_bytes_order_flip(encode_utf8(a), encode_utf8(b), 0);
}

/// `name_order` is transitive.
pub proof fn lemma_name_order_chain(a: Seq<char>, b: Seq<char>, c: Seq<char>)
    requires
        name_order(a, b) <= 0,
        name_order(b, c) <= 0,
    ensures
        name_order(a, c) <= 0,
        name_order(a, c) == 0 ==> name_order(a, b) == 0 && name_order(b, c) == 0,
{
    lemma_bytes_order_chain(encode_utf8(a), encode_utf8(b), encode_utf8(c), 0);
}

/// Compares two names by `name_order`.
pub fn compare_names(a: &str, b: &str) -> (r: i8)
    ensures
        r == name_order(a@, b@),
{
    let x = a.as_bytes();
    let y = b.as_bytes();
    let mut i: usize = 0;
    while i < x.len() && i < y.len()
        invariant
            i <= x.len(),
            i <= y.len(),
            x@ == encode_utf8(a@),
            y@ == encode_utf8(b@),
            name_order(a@, b@) == bytes_order_from(x@, y@, i as int),
        decreases x.len() - i,
    {
        if x[i] < y[i] {
            return -1;
        }
        if x[i] > y[i] {
            return 1;
        }
        i = i + 1;
    }
    if i < y.len() {
        -1
    } else if i < x.len() {
        1
    } else {
        0
    }
}

/// What is left of `s` after `prefix`, where `s` begins with it.
pub open spec fn without_prefix(s: Seq<char>, prefix: Seq<char>) -> Option<Seq<char>> {
    if prefix.is_prefix_of(s) {
        Some(s.skip(prefix.len() as int))
    } else {
        None
    }
}

/// Takes `prefix` from the start of `s`, where `s` begins with it.
pub fn strip_prefix<'a>(s: &'a str, prefix: &str) -> (r: Option<&'a str>)
    ensures
        match r {
            Some(rest) => without_prefix(s@, prefix@) == Some(rest@),
            None => without_prefix(s@, prefix@) is None,
        },
{
    let n = s.unicode_len();
    let m = prefix.unicode_len();
    if m > n {
        return None;
    }
    let mut i: usize = 0;
    while i < m
        invariant
            i <= m <= n,
            n == s@.len(),
            m == prefix@.len(),
            forall|k: int| 0 <= k < i ==> s@[k] == prefix@[k],
        decreases m - i,
    {
        if s.get_char(i) != prefix.get_char(i) {
            assert(s@.subrange(0, m as int)[i as int] != prefix@[i as int]);
            return None;
        }
        i = i + 1;
    }
    assert(s@.subrange(0, m as int) =~= prefix@);
    let rest = s.substring_char(m, n);
    assert(rest@ =~= s@.skip(m as int));
    Some(rest)
}

/// Whether `c` occurs in `s`.
pub fn has_char(s: &str, c: char) -> (r: bool)
    ensures
        r == s@.contains(c),
{
    let n = s.unicode_len();
    let mut i: usize = 0;
    while i < n
        invariant
            i <= n,
            n == s@.len(),
            forall|k: int| 0 <= k < i ==> s@[k] != c,
        decreases n - i,
    {
        if s.get_char(i) == c {
            return true;
        }
        i = i + 1;
    }
    false
}

/// Whether `name` is one of `names`.
pub fn has_name(names: &Vec<String>, name: &str) -> (r: bool)
    ensures
        r == exists|i: int| 0 <= i < names.len() && names[i]@ == name@,
{
    let mut i: usize = 0;
    while i < names.len()
        invariant
            i <= names.len(),
            forall|k: int| 0 <= k < i ==> names[k]@ != name@,
        decreases names.len() - i,
    {
        if compare_names(names[i].as_str(), name) == 0 {
            proof {
                lemma_name_order_zero(names[i as int]@, name@);
            }
            return true;
        }
        proof {
            lemma_name_order_zero(names[i as int]@, name@);
        }
        i = i + 1;
    }
    false
}

/// Whether two names are the same.
pub fn same_name(a: &str, b: &str) -> (r: bool)
    ensures
        r == (a@ == b@),
{
    proof {
        lemma_name_order_zero(a@, b@);
    }
    compare_names(a, b) == 0
}

} // verus!
