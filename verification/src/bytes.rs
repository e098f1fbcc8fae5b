//! Big-endian byte strings and the integers they stand for.

use vstd::prelude::*;

verus! {

/// `256` to the power `n`.
pub open spec fn pow256(n: nat) -> nat
    decreases n,
{
    if n == 0 {
        1
    } else {
        256 * pow256((n - 1) as nat)
    }
}

/// The number that a big-endian byte string denotes.
pub open spec fn be_value(bytes: Seq<u8>) -> nat
    decreases bytes.len(),
{
    if bytes.len() == 0 {
        0
    } else {
        be_value(bytes.drop_last()) * 256 + bytes.last() as nat
    }
}

/// The `n` lowest base-256 digits of `v`, most significant first.
pub open spec fn be_bytes(v: nat, n: nat) -> Seq<u8>
    decreases n,
{
    if n == 0 {
        Seq::empty()
    } else {
        be_bytes(v / 256, (n - 1) as nat).push((v % 256) as u8)
    }
}

/// A byte string without its leading zero bytes.
pub open spec fn strip_leading_zeros(bytes: Seq<u8>) -> Seq<u8>
    decreases bytes.len(),
{
    if bytes.len() > 0 && bytes[0] == 0 {
        strip_leading_zeros(bytes.drop_first())
    } else {
        bytes
    }
}

/// Shortest big-endian form of a 64-bit number: no leading zero byte, and
/// the empty string for zero.
pub open spec fn minimal_be(v: u64) -> Seq<u8> {
    strip_leading_zeros(be_bytes(v as nat, 8))
}

/// The powers of 256 at the widths that the types use.
pub proof fn lemma_pow256_values()
    ensures
        pow256(0) == 1,
        pow256(1) == 0x100,
        pow256(4) == 0x1_0000_0000,
        pow256(8) == 0x1_0000_0000_0000_0000,
        pow256(16) == 0x1_0000_0000_0000_0000_0000_0000_0000_0000,
{
    reveal_with_fuel(pow256, 17);
}

/// A byte string of length `n` denotes a number below `256^n`.
pub proof fn lemma_be_value_bound(bytes: Seq<u8>)
    ensures
        be_value(bytes) < pow256(bytes.len()),
    decreases bytes.len(),
{
    if bytes.len() > 0 {
        lemma_be_value_bound(bytes.drop_last());
    }
}

/// `be_bytes(v, n)` has `n` bytes.
pub proof fn lemma_be_bytes_len(v: nat, n: nat)
    ensures
        be_bytes(v, n).len() == n,
    decreases n,
{
    if n > 0 {
        lemma_be_bytes_len(v / 256, (n - 1) as nat);
    }
}

/// Writing a number below `256^n` on `n` bytes and reading it back gives the
/// number.
pub proof fn lemma_be_value_of_be_bytes(v: nat, n: nat)
    requires
        v < pow256(n),
    ensures
        be_value(be_bytes(v, n)) == v,
    decreases n,
{
    if n > 0 {
        let rest = be_bytes(v / 256, (n - 1) as nat);
        lemma_be_bytes_len(v / 256, (n - 1) as nat);
        lemma_be_value_of_be_bytes(v / 256, (n - 1) as nat);
        assert(be_bytes(v, n).drop_last() =~= rest);
    }
}

/// Reading a byte string and writing the number back on as many bytes gives
/// the byte string.
pub proof fn lemma_be_bytes_of_be_value(bytes: Seq<u8>)
    ensures
        be_bytes(be_value(bytes), bytes.len()) == bytes,
    decreases bytes.len(),
{
    if bytes.len() > 0 {
        let front = bytes.drop_last();
        lemma_be_bytes_of_be_value(front);
        let v = be_value(bytes);
        assert(v / 256 == be_value(front));
        assert(v % 256 == bytes.last() as nat);
        assert(be_bytes(v, bytes.len()) =~= bytes);
    } else {
        assert(be_bytes(0, 0) =~= bytes);
    }
}

/// Whether `a` comes before `b` in the order of byte strings: at the first
/// place where they differ, `a` has the smaller byte.
pub open spec fn lex_less(a: Seq<u8>, b: Seq<u8>) -> bool {
    exists|k: int| 0 <= k < a.len() && k < b.len() && #[trigger] a.take(k) == b.take(k) && a[k] < b[k]
}

/// The number of a concatenation: the first part shifted by the length of
/// the second, plus the second.
pub proof fn lemma_be_value_concat(front: Seq<u8>, back: Seq<u8>)
    ensures
        be_value(front + back) == be_value(front) * pow256(back.len()) + be_value(back),
    decreases back.len(),
{
    if back.len() == 0 {
        assert(front + back =~= front);
        assert(pow256(0) == 1);
    } else {
        let rest = back.drop_last();
        lemma_be_value_concat(front, rest);
        assert((front + back).drop_last() =~= front + rest);
        assert((front + back).last() == back.last());
        let f = be_value(front);
        let r = be_value(rest);
        let p = pow256(rest.len());
        assert(pow256(back.len()) == 256 * p);
        assert(be_value(front + back) == (f * p + r) * 256 + back.last());
        assert((f * p + r) * 256 == f * (256 * p) + r * 256) by (nonlinear_arith);
    }
}

/// Byte strings of one length are ordered as the numbers they denote.
pub proof fn lemma_be_value_order(a: Seq<u8>, b: Seq<u8>)
    requires
        a.len() == b.len(),
    ensures
        be_value(a) < be_value(b) <==> lex_less(a, b),
        be_value(a) == be_value(b) <==> a == b,
    decreases a.len(),
{
    lemma_be_bytes_of_be_value(a);
    lemma_be_bytes_of_be_value(b);
    if a.len() > 0 {
        let n = a.len() - 1;
        let front_a = a.drop_last();
        let front_b = b.drop_last();
        lemma_be_value_order(front_a, front_b);
        if lex_less(a, b) {
            let k = choose|k: int|
                0 <= k < a.len() && k < b.len() && #[trigger] a.take(k) == b.take(k) && a[k] < b[k];
            if k < n {
                assert(front_a.take(k) =~= a.take(k));
                assert(front_b.take(k) =~= b.take(k));
                assert(front_a[k] == a[k] && front_b[k] == b[k]);
                assert(lex_less(front_a, front_b));
            } else {
                assert(front_a =~= a.take(k));
                assert(front_b =~= b.take(k));
            }
        }
        if be_value(a) < be_value(b) {
            if be_value(front_a) < be_value(front_b) {
                let k = choose|k: int|
                    0 <= k < front_a.len() && k < front_b.len() && #[trigger] front_a.take(k)
                        == front_b.take(k) && front_a[k] < front_b[k];
                assert(a.take(k) =~= front_a.take(k));
                assert(b.take(k) =~= front_b.take(k));
                assert(a[k] == front_a[k] && b[k] == front_b[k]);
            } else {
                assert(front_a == front_b);
                assert(a.take(n) =~= front_a);
                assert(b.take(n) =~= front_b);
                assert(a[n] < b[n]);
            }
        }
    }
}

/// Reads the big-endian number held in `bytes[start .. start + len]`.
pub fn read_be(bytes: &[u8], start: usize, len: usize) -> (value: u128)
    requires
        len <= 16,
        start + len <= bytes@.len(),
    ensures
        value == be_value(bytes@.subrange(start as int, start + len)),
{
    let total: usize = bytes.len();
    let mut value: u128 = 0;
    let mut i: usize = 0;
    while i < len
        invariant
            i <= len <= 16,
            start + len <= bytes@.len() == total,
            value == be_value(bytes@.subrange(start as int, start + i)),
        decreases len - i,
    {
        let ghost before = bytes@.subrange(start as int, start + i);
        let ghost after = bytes@.subrange(start as int, start + i + 1);
        proof {
            lemma_be_value_bound(before);
            lemma_be_value_bound(after);
            lemma_pow256_values();
            lemma_pow256_monotonic((i + 1) as nat, 16);
            assert(after.drop_last() =~= before);
        }
        value = value * 256 + bytes[start + i] as u128;
        i = i + 1;
    }
    value
}

/// The powers of 256 grow with the exponent.
pub proof fn lemma_pow256_monotonic(a: nat, b: nat)
    requires
        a <= b,
    ensures
        pow256(a) <= pow256(b),
    decreases b,
{
    if a < b {
        lemma_pow256_monotonic(a, (b - 1) as nat);
    }
}

/// Appends the `n` lowest base-256 digits of `v` to `out`, most significant
/// first.
pub fn push_be(out: &mut Vec<u8>, v: u128, n: usize)
    ensures
        final(out)@ == old(out)@ + be_bytes(v as nat, n as nat),
    decreases n,
{
    if n > 0 {
        push_be(out, v / 256, n - 1);
        out.push((v % 256) as u8);
        assert(out@ =~= old(out)@ + be_bytes(v as nat, n as nat));
    } else {
        assert(out@ =~= old(out)@ + be_bytes(v as nat, n as nat));
    }
}

/// Copy of `bytes` without its leading zero bytes.
pub fn strip_zeros(bytes: &Vec<u8>) -> (out: Vec<u8>)
    ensures
        out@ == strip_leading_zeros(bytes@),
{
    let mut first: usize = 0;
    assert(bytes@.subrange(0, bytes@.len() as int) =~= bytes@);
    while first < bytes.len() && bytes[first] == 0
        invariant
            first <= bytes@.len(),
            strip_leading_zeros(bytes@) == strip_leading_zeros(
                bytes@.subrange(first as int, bytes@.len() as int),
            ),
        decreases bytes@.len() - first,
    {
        proof {
            let rest = bytes@.subrange(first as int, bytes@.len() as int);
            assert(rest.drop_first() =~= bytes@.subrange(first + 1, bytes@.len() as int));
        }
        first = first + 1;
    }
    let mut out: Vec<u8> = Vec::new();
    let mut i: usize = first;
    while i < bytes.len()
        invariant
            first <= i <= bytes@.len(),
            out@ == bytes@.subrange(first as int, i as int),
        decreases bytes@.len() - i,
    {
        out.push(bytes[i]);
        assert(out@ =~= bytes@.subrange(first as int, i + 1));
        i = i + 1;
    }
    out
}

/// Shortest big-endian form of `v`.
pub fn minimal_be_bytes(v: u64) -> (out: Vec<u8>)
    ensures
        out@ == minimal_be(v),
{
    let mut full: Vec<u8> = Vec::new();
    push_be(&mut full, v as u128, 8);
    assert(full@ =~= be_bytes(v as nat, 8));
    strip_zeros(&full)
}

/// Copy of `bytes[start .. end]`.
pub fn copy_range(bytes: &[u8], start: usize, end: usize) -> (out: Vec<u8>)
    requires
        start <= end <= bytes@.len(),
    ensures
        out@ == bytes@.subrange(start as int, end as int),
{
    let mut out: Vec<u8> = Vec::new();
    let mut i: usize = start;
    while i < end
        invariant
            start <= i <= end <= bytes@.len(),
            out@ == bytes@.subrange(start as int, i as int),
        decreases end - i,
    {
        out.push(bytes[i]);
        assert(out@ =~= bytes@.subrange(start as int, i + 1));
        i = i + 1;
    }
    out
}

} // verus!
