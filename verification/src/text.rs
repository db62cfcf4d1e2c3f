//! Texts as labels: their code, their equality and their order, all by their
//! UTF-8 bytes.

use vstd::prelude::*;
use vstd::utf8::{encode_utf8, encode_utf8_decode_utf8};
use crate::label::{Label, SortKey};

verus! {

/// One step of the code of a byte string: the byte is mixed into the code so
/// far, which is then multiplied, modulo 2^64.
pub open spec fn code_step(h: u64, b: u8) -> u64 {
    (h ^ (b as u64)).wrapping_mul(0x0000_0100_0000_01b3u64)
}

/// The code of a byte string: every byte mixed in, from the first to the
/// last, starting from a fixed offset.
pub open spec fn code_of_bytes(bytes: Seq<u8>) -> u64
    decreases bytes.len(),
{
    if bytes.len() == 0 {
        0xcbf2_9ce4_8422_2325u64
    } else {
        code_step(code_of_bytes(bytes.drop_last()), bytes.last())
    }
}

/// Whether `a` and `b` agree on their first `k` bytes.
pub open spec fn agree_upto(a: Seq<u8>, b: Seq<u8>, k: int) -> bool {
    &&& 0 <= k <= a.len()
    &&& k <= b.len()
    &&& forall|j: int| 0 <= j < k ==> a[j] == b[j]
}

/// Whether `a` comes before `b` in the order of a dictionary: at the first
/// place where they part, `a` has ended or has the smaller byte.
pub open spec fn bytes_before(a: Seq<u8>, b: Seq<u8>) -> bool {
    exists|k: int| #[trigger] agree_upto(a, b, k) && k < b.len() && (k == a.len() || a[k] < b[k])
}

/// The order of texts: that of their UTF-8 bytes.
pub open spec fn text_before(a: Seq<char>, b: Seq<char>) -> bool {
    bytes_before(encode_utf8(a), encode_utf8(b))
}

/// The code of `bytes`.
pub fn bytes_code(bytes: &[u8]) -> (h: u64)
    ensures
        h == code_of_bytes(bytes@),
{
    let mut h: u64 = 0xcbf2_9ce4_8422_2325u64;
    let mut k: usize = 0;
    assert(bytes@.take(0) =~= Seq::<u8>::empty());
    while k < bytes.len()
        invariant
            k <= bytes@.len(),
            h == code_of_bytes(bytes@.take(k as int)),
        decreases bytes.len() - k,
    {
        proof {
            assert(bytes@.take(k + 1).drop_last() =~= bytes@.take(k as int));
        }
        let b: u64 = bytes[k] as u64;
        h = (h ^ b).wrapping_mul(0x0000_0100_0000_01b3u64);
        k = k + 1;
    }
    assert(bytes@.take(bytes@.len() as int) =~= bytes@);
    h
}

/// Whether the two byte strings are the same.
pub fn bytes_same(a: &[u8], b: &[u8]) -> (r: bool)
    ensures
        r == (a@ == b@),
{
    if a.len() != b.len() {
        return false;
    }
    let mut k: usize = 0;
    while k < a.len()
        invariant
            k <= a@.len(),
            a@.len() == b@.len(),
            forall|j: int| 0 <= j < k ==> a@[j] == b@[j],
        decreases a.len() - k,
    {
        if a[k] != b[k] {
            return false;
        }
        k = k + 1;
    }
    assert(a@ =~= b@);
    true
}

/// Whether `a` comes before `b` in the order of a dictionary.
pub fn bytes_precede(a: &[u8], b: &[u8]) -> (r: bool)
    ensures
        r == bytes_before(a@, b@),
{
    let mut k: usize = 0;
    while k < a.len() && k < b.len()
        invariant
            agree_upto(a@, b@, k as int),
        decreases a.len() - k,
    {
        if a[k] != b[k] {
            let r = a[k] < b[k];
            proof {
                lemma_parting(a@, b@, k as int);
            }
            return r;
        }
        k = k + 1;
    }
    proof {
        lemma_parting(a@, b@, k as int);
    }
    a.len() < b.len()
}

/// Where `a` and `b` agree on `k` bytes and part there, they are ordered by
/// what they have at `k`.
proof fn lemma_parting(a: Seq<u8>, b: Seq<u8>, k: int)
    requires
        agree_upto(a, b, k),
        k == a.len() || k == b.len() || a[k] != b[k],
    ensures
        bytes_before(a, b) <==> k < b.len() && (k == a.len() || a[k] < b[k]),
{
    if bytes_before(a, b) {
        let w = choose|w: int| #[trigger]
            agree_upto(a, b, w) && w < b.len() && (w == a.len() || a[w] < b[w]);
        if w < k {
            assert(a[w] == b[w]);
        } else if w > k {
            assert(a[k] == b[k]);
        }
    }
}

/// Two byte strings that differ part somewhere.
proof fn lemma_parts(a: Seq<u8>, b: Seq<u8>, k: int) -> (w: int)
    requires
        a != b,
        agree_upto(a, b, k),
    ensures
        agree_upto(a, b, w),
        w == a.len() || w == b.len() || a[w] != b[w],
        !(w == a.len() && w == b.len()),
    decreases a.len() - k,
{
    if k == a.len() || k == b.len() {
        if k == a.len() && k == b.len() {
            assert(a =~= b);
        }
        k
    } else if a[k] != b[k] {
        k
    } else {
        lemma_parts(a, b, k + 1)
    }
}

/// The order of byte strings is strict and total.
pub proof fn lemma_bytes_order(a: Seq<u8>, b: Seq<u8>, c: Seq<u8>)
    ensures
        !bytes_before(a, a),
        bytes_before(a, b) && bytes_before(b, c) ==> bytes_before(a, c),
        a != b ==> bytes_before(a, b) || bytes_before(b, a),
{
    if bytes_before(a, b) && bytes_before(b, c) {
        let k1 = choose|w: int| #[trigger]
            agree_upto(a, b, w) && w < b.len() && (w == a.len() || a[w] < b[w]);
        let k2 = choose|w: int| #[trigger]
            agree_upto(b, c, w) && w < c.len() && (w == b.len() || b[w] < c[w]);
        let k = if k1 <= k2 { k1 } else { k2 };
        assert(agree_upto(a, c, k));
        if k1 < k2 {
            assert(b[k1] == c[k1]);
        } else if k2 < k1 {
            assert(a[k2] == b[k2]);
        }
    }
    if a != b {
        let w = lemma_parts(a, b, 0);
        lemma_parting(a, b, w);
        assert(agree_upto(b, a, w));
        lemma_parting(b, a, w);
    }
}

impl<'a> Label for &'a str {
    open spec fn code_of(v: Seq<char>) -> u64 {
        code_of_bytes(encode_utf8(v))
    }

    fn code(&self) -> (c: u64) {
        bytes_code(self.as_bytes())
    }

    fn same(&self, other: &Self) -> (b: bool) {
        proof {
            encode_utf8_decode_utf8(self@);
            encode_utf8_decode_utf8(other@);
        }
        bytes_same(self.as_bytes(), other.as_bytes())
    }
}

impl<'a> SortKey for &'a str {
    open spec fn before(a: Seq<char>, b: Seq<char>) -> bool {
        text_before(a, b)
    }

    proof fn before_is_strict_total() {
        assert forall|a: Seq<char>| !#[trigger] text_before(a, a) by {
            lemma_bytes_order(encode_utf8(a), encode_utf8(a), encode_utf8(a));
        }
        assert forall|a: Seq<char>, b: Seq<char>, c: Seq<char>| #[trigger]
            text_before(a, b) && #[trigger] text_before(b, c) implies text_before(a, c) by {
            lemma_bytes_order(encode_utf8(a), encode_utf8(b), encode_utf8(c));
        }
        assert forall|a: Seq<char>, b: Seq<char>| a != b implies #[trigger] text_before(a, b)
            || text_before(b, a) by {
            encode_utf8_decode_utf8(a);
            encode_utf8_decode_utf8(b);
            lemma_bytes_order(encode_utf8(a), encode_utf8(b), encode_utf8(a));
        }
    }

    fn precedes(&self, other: &Self) -> (b: bool) {
        bytes_precede(self.as_bytes(), other.as_bytes())
    }
}

} // verus!
