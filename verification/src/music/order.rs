//! The order of the keys of a tree: that of their UTF-8 bytes, read from
//! the left, which is the order in which Rust sorts strings.

use vstd::prelude::*;
use vstd::utf8::{encode_utf8, decode_utf8, encode_utf8_decode_utf8};

verus! {

/// Whether `a` comes before `b` when both are read from position `from` on:
/// at the first place where they differ `a` holds the smaller byte, or `a`
/// ends there and `b` goes on.
pub open spec fn bytes_before_from(a: Seq<u8>, b: Seq<u8>, from: int) -> bool
    decreases b.len() - from,
{
    if from < 0 || from >= b.len() {
        false
    } else if from >= a.len() {
        true
    } else if a[from] != b[from] {
        a[from] < b[from]
    } else {
        bytes_before_from(a, b, from + 1)
    }
}

/// Whether the bytes `a` come strictly before the bytes `b`.
pub open spec fn bytes_before(a: Seq<u8>, b: Seq<u8>) -> bool {
    bytes_before_from(a, b, 0)
}

/// Whether the key `a` comes strictly before the key `b`.
pub open spec fn key_before(a: Seq<char>, b: Seq<char>) -> bool {
    bytes_before(encode_utf8(a), encode_utf8(b))
}

/// Nothing comes before itself.
pub proof fn bytes_before_irreflexive(a: Seq<u8>, from: int)
    ensures
        !bytes_before_from(a, a, from),
    decreases a.len() - from,
{
    if 0 <= from < a.len() {
        bytes_before_irreflexive(a, from + 1);
    }
}

/// What comes before something that comes before a third comes before the
/// third.
pub proof fn bytes_before_transitive(a: Seq<u8>, b: Seq<u8>, c: Seq<u8>, from: int)
    requires
        bytes_before_from(a, b, from),
        bytes_before_from(b, c, from),
    ensures
        bytes_before_from(a, c, from),
    decreases b.len() - from,
{
    if from < a.len() && a[from] == b[from] && b[from] == c[from] {
        bytes_before_transitive(a, b, c, from + 1);
    }
}

/// Of two byte strings that agree up to `from`, one comes before the other
/// or they are the same.
pub proof fn bytes_before_total(a: Seq<u8>, b: Seq<u8>, from: int)
    requires
        0 <= from <= a.len(),
        from <= b.len(),
        a.subrange(0, from) == b.subrange(0, from),
        !bytes_before_from(a, b, from),
        !bytes_before_from(b, a, from),
    ensures
        a == b,
    decreases b.len() - from,
{
    if from < b.len() {
        assert(from < a.len());
        assert(a[from] == b[from]);
        assert(a.subrange(0, from + 1) =~= a.subrange(0, from).push(a[from]));
        assert(b.subrange(0, from + 1) =~= b.subrange(0, from).push(b[from]));
        bytes_before_total(a, b, from + 1);
    } else {
        assert(a.len() == b.len());
        assert(a =~= a.subrange(0, from));
        assert(b =~= b.subrange(0, from));
    }
}

/// Two texts with the same bytes are the same text.
pub proof fn same_bytes_same_key(a: Seq<char>, b: Seq<char>)
    requires
        encode_utf8(a) == encode_utf8(b),
    ensures
        a == b,
{
    encode_utf8_decode_utf8(a);
    encode_utf8_decode_utf8(b);
    assert(decode_utf8(encode_utf8(a)) == decode_utf8(encode_utf8(b)));
}

/// No key comes before itself.
pub proof fn key_before_irreflexive(a: Seq<char>)
    ensures
        !key_before(a, a),
{
    bytes_before_irreflexive(encode_utf8(a), 0);
}

/// The order of keys is transitive.
pub proof fn key_before_transitive(a: Seq<char>, b: Seq<char>, c: Seq<char>)
    requires
        key_before(a, b),
        key_before(b, c),
    ensures
        key_before(a, c),
{
    bytes_before_transitive(encode_utf8(a), encode_utf8(b), encode_utf8(c), 0);
}

/// Of two different keys one comes before the other.
pub proof fn key_before_total(a: Seq<char>, b: Seq<char>)
    requires
        a != b,
    ensures
        key_before(a, b) || key_before(b, a),
{
    let x = encode_utf8(a);
    let y = encode_utf8(b);
    if !bytes_before(x, y) && !bytes_before(y, x) {
        assert(x.subrange(0, 0) =~= y.subrange(0, 0));
        bytes_before_total(x, y, 0);
        same_bytes_same_key(a, b);
    }
}

/// Whether `a` and `b` are the same text.
pub fn same(a: &str, b: &str) -> (r: bool)
    ensures
        r == (a@ == b@),
{
    let x = a.as_bytes();
    let y = b.as_bytes();
    if x.len() != y.len() {
        return false;
    }
    let mut i: usize = 0;
    while i < x.len()
        invariant
            i <= x.len(),
            x.len() == y.len(),
            x@ == encode_utf8(a@),
            y@ == encode_utf8(b@),
            forall|j: int| 0 <= j < i ==> x@[j] == y@[j],
        decreases x.len() - i,
    {
        if x[i] != y[i] {
            return false;
        }
        i += 1;
    }
    proof {
        assert(x@ =~= y@);
        same_bytes_same_key(a@, b@);
    }
    true
}

/// Whether the key `a` comes strictly before the key `b`.
pub fn before(a: &str, b: &str) -> (r: bool)
    ensures
        r == key_before(a@, b@),
{
    let x = a.as_bytes();
    let y = b.as_bytes();
    let mut i: usize = 0;
    while i < x.len() && i < y.len()
        invariant
            i <= x.len(),
            i <= y.len(),
            x@ == encode_utf8(a@),
            y@ == encode_utf8(b@),
            bytes_before(x@, y@) == bytes_before_from(x@, y@, i as int),
        decreases x.len() - i,
    {
        if x[i] != y[i] {
            return x[i] < y[i];
        }
        i += 1;
    }
    i < y.len()
}

} // verus!
