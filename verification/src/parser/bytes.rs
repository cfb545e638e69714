//! Big-endian integers in byte sequences, and UTF-8 text.

use vstd::prelude::*;
use vstd::utf8::{decode_utf8, valid_utf8};

verus! {

/// `256` to the power `n`.
pub open spec fn pow256(n: nat) -> nat
    decreases n,
{
    if n == 0 {
        1
    } else {
        256 * pow256((n - 1) as nat)
    }
}

/// The unsigned value of `s` read as a big-endian number.
pub open spec fn be_value(s: Seq<u8>) -> nat
    decreases s.len(),
{
    if s.len() == 0 {
        0
    } else {
        be_value(s.drop_last()) * 256 + s.last() as nat
    }
}

/// The low `k` bytes of `v`, most significant first (`to_be_bytes` of `v`
/// cast to a `k`-byte integer).
pub open spec fn be_bytes(v: nat, k: nat) -> Seq<u8>
    decreases k,
{
    if k == 0 {
        seq![]
    } else {
        be_bytes(v / 256, (k - 1) as nat).push((v % 256) as u8)
    }
}

proof fn lemma_pow256_small(j: nat)
    requires
        j <= 8,
    ensures
        pow256(j) <= pow256(8),
        pow256(8) == 0x1_0000_0000_0000_0000,
        j < 8 ==> pow256(j) * 256 <= 0x1_0000_0000_0000_0000,
        j <= 4 ==> pow256(j) <= 0x1_0000_0000,
{
    reveal_with_fuel(pow256, 9);
}

/// The low `k` bytes of a number do not change when multiples of
/// `256^n` (`k <= n`) are taken away.
pub proof fn lemma_be_bytes_mod(v: nat, k: nat, n: nat)
    requires
        k <= n,
    ensures
        be_bytes(v % pow256(n), k) == be_bytes(v, k),
    decreases k,
{
    if k > 0 {
        let p = pow256((n - 1) as nat);
        assert(pow256(n) == 256 * p);
        lemma_pow256_positive((n - 1) as nat);
        let w = v % pow256(n);
        vstd::arithmetic::div_mod::lemma_mod_breakdown(v as int, 256, p as int);
        assert(w == 256 * ((v / 256) % p) + v % 256);
        vstd::arithmetic::div_mod::lemma_div_multiples_vanish_fancy(((v / 256) % p) as int, (v % 256) as int, 256);
        assert(w / 256 == (v / 256) % p);
        vstd::arithmetic::div_mod::lemma_mod_multiples_vanish(((v / 256) % p) as int, (v % 256) as int, 256);
        assert(w % 256 == v % 256);
        lemma_be_bytes_mod(v / 256, (k - 1) as nat, (n - 1) as nat);
        assert(be_bytes(w, k) == be_bytes(w / 256, (k - 1) as nat).push((w % 256) as u8));
        assert(be_bytes(v, k) == be_bytes(v / 256, (k - 1) as nat).push((v % 256) as u8));

    } else {
        lemma_pow256_positive(n);
    }
}

/// The big-endian bytes of any number, written in `k` bytes, are `k` bytes.
pub proof fn lemma_be_bytes_len(v: nat, k: nat)
    ensures
        be_bytes(v, k).len() == k,
    decreases k,
{
    if k > 0 {
        lemma_be_bytes_len(v / 256, (k - 1) as nat);
    }
}

/// The big-endian bytes of a number below `256^k` read back as the number.
pub proof fn lemma_be_value_bytes(v: nat, k: nat)
    requires
        v < pow256(k),
    ensures
        be_bytes(v, k).len() == k,
        be_value(be_bytes(v, k)) == v,
    decreases k,
{
    if k > 0 {
        let p = pow256((k - 1) as nat);
        let q = v / 256;
        let r = v % 256;
        vstd::arithmetic::div_mod::lemma_fundamental_div_mod(v as int, 256);
        assert(q < p) by (nonlinear_arith)
            requires
                v < 256 * p,
                v == 256 * q + r,
                0 <= r,
        ;
        lemma_be_value_bytes(q, (k - 1) as nat);
        let b = be_bytes(q, (k - 1) as nat);
        assert(b.push(r as u8).drop_last() =~= b);
    }
}

proof fn lemma_pow256_positive(n: nat)
    ensures
        pow256(n) > 0,
    decreases n,
{
    if n > 0 {
        lemma_pow256_positive((n - 1) as nat);
    }
}

/// Adding one with wraparound to a 64-bit number leaves its low four bytes
/// as adding one without it does.
pub proof fn lemma_be_bytes_wrapping_inc(x: u64)
    ensures
        be_bytes(vstd::wrapping::u64_specs::wrapping_add(x, 1) as nat, 4) == be_bytes((x + 1) as nat, 4),
{
    if x == u64::MAX {
        lemma_pow256_small(8);
        lemma_be_bytes_mod(0x1_0000_0000_0000_0000, 4, 8);
    }
}

/// The big-endian value of `s[i..i + k]`, for at most eight bytes.
pub fn read_be(s: &[u8], i: usize, k: usize) -> (r: u64)
    requires
        k <= 8,
        i + k <= s.len(),
    ensures
        r as nat == be_value(s@.subrange(i as int, i + k)),
        k <= 4 ==> r < 0x1_0000_0000,
{
    let mut acc: u64 = 0;
    let mut j: usize = 0;
    while j < k
        invariant
            j <= k <= 8,
            i + k <= s.len(),
            acc as nat == be_value(s@.subrange(i as int, i + j)),
            acc < pow256(j as nat),
        decreases k - j,
    {
        proof {
            lemma_pow256_small(j as nat);
            let t = s@.subrange(i as int, i + j + 1);
            assert(t.drop_last() =~= s@.subrange(i as int, i + j));
            assert(t.last() == s@[i + j]);
            let p = pow256(j as nat);
            assert(acc * 256 + s@[i + j] < p * 256) by (nonlinear_arith)
                requires acc < p, s@[i + j] < 256;
        }
        acc = acc * 256 + s[i + j] as u64;
        j = j + 1;
    }
    proof {
        lemma_pow256_small(k as nat);
    }
    acc
}

/// Appends the low `k` bytes of `v` to `out`, most significant first.
pub fn push_be(out: &mut Vec<u8>, v: u64, k: usize)
    ensures
        final(out)@ == old(out)@ + be_bytes(v as nat, k as nat),
    decreases k,
{
    if k > 0 {
        push_be(out, v / 256, k - 1);
        out.push((v % 256) as u8);
        assert(final(out)@ =~= old(out)@ + be_bytes(v as nat, k as nat));
    } else {
        assert(final(out)@ =~= old(out)@ + be_bytes(v as nat, k as nat));
    }
}

/// Decodes UTF-8 bytes into a string (`String::from_utf8`): there is a
/// string exactly when the bytes are valid UTF-8, and it holds their
/// decoded characters.
#[verifier::external_body]
pub(crate) fn string_from_utf8(bytes: Vec<u8>) -> (r: Option<String>)
    ensures
        r is Some <==> valid_utf8(bytes@),
        r matches Some(s) ==> s@ == decode_utf8(bytes@),
{
    String::from_utf8(bytes).ok()
}

} // verus!
