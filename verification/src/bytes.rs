//! Fixed-width integers as bytes, in both byte orders.

use vstd::prelude::*;

verus! {

/// 256 to the power of `n`.
pub open spec fn pow256(n: nat) -> nat
    decreases n,
{
    if n == 0 {
        1
    } else {
        256 * pow256((n - 1) as nat)
    }
}

/// The low `n` bytes of `v`, least significant first.
pub open spec fn le_bytes(n: nat, v: nat) -> Seq<u8>
    decreases n,
{
    if n == 0 {
        Seq::empty()
    } else {
        seq![(v % 256) as u8] + le_bytes((n - 1) as nat, v / 256)
    }
}

/// The low `n` bytes of `v`, most significant first.
pub open spec fn be_bytes(n: nat, v: nat) -> Seq<u8>
    decreases n,
{
    if n == 0 {
        Seq::empty()
    } else {
        be_bytes((n - 1) as nat, v / 256).push((v % 256) as u8)
    }
}

/// The number that `s` spells, least significant byte first.
pub open spec fn le_value(s: Seq<u8>) -> nat
    decreases s.len(),
{
    if s.len() == 0 {
        0
    } else {
        s[0] as nat + 256 * le_value(s.skip(1))
    }
}

pub proof fn lemma_pow256_pos(n: nat)
    ensures
        pow256(n) > 0,
    decreases n,
{
    if n > 0 {
        lemma_pow256_pos((n - 1) as nat);
    }
}

pub proof fn lemma_pow256()
    ensures
        pow256(1) == 0x100,
        pow256(2) == 0x1_0000,
        pow256(4) == 0x1_0000_0000,
        pow256(8) == 0x1_0000_0000_0000_0000,
{
    reveal_with_fuel(pow256, 9);
}

pub broadcast proof fn lemma_le_bytes_len(n: nat, v: nat)
    ensures
        (#[trigger] le_bytes(n, v)).len() == n,
    decreases n,
{
    if n > 0 {
        lemma_le_bytes_len((n - 1) as nat, v / 256);
    }
}

pub broadcast proof fn lemma_be_bytes_len(n: nat, v: nat)
    ensures
        (#[trigger] be_bytes(n, v)).len() == n,
    decreases n,
{
    if n > 0 {
        lemma_be_bytes_len((n - 1) as nat, v / 256);
    }
}

/// Little-endian bytes spell the number they were made of.
pub proof fn le_round_trip(n: nat, v: nat)
    requires
        v < pow256(n),
    ensures
        le_value(le_bytes(n, v)) == v,
    decreases n,
{
    if n > 0 {
        le_round_trip((n - 1) as nat, v / 256);
        assert(le_bytes(n, v).skip(1) =~= le_bytes((n - 1) as nat, v / 256));
    }
}

proof fn lemma_le_value_bound(s: Seq<u8>)
    ensures
        le_value(s) < pow256(s.len()),
    decreases s.len(),
{
    if s.len() > 0 {
        lemma_le_value_bound(s.skip(1));
    }
}

/// Append the low `n` bytes of `v`, least significant first.
pub(crate) fn put_le(out: &mut Vec<u8>, n: usize, v: u64)
    ensures
        final(out)@ == old(out)@ + le_bytes(n as nat, v as nat),
{
    let mut i: usize = 0;
    let mut v: u64 = v;
    let ghost all = old(out)@ + le_bytes(n as nat, v as nat);
    while i < n
        invariant
            i <= n,
            out@ + le_bytes((n - i) as nat, v as nat) == all,
        decreases n - i,
    {
        let b = (v % 256) as u8;
        proof {
            assert(out@.push(b) + le_bytes((n - i - 1) as nat, (v / 256) as nat) =~= out@
                + le_bytes((n - i) as nat, v as nat));
        }
        out.push(b);
        v = v / 256;
        i = i + 1;
    }
    assert(out@ =~= all);
}

/// Append the low `n` bytes of `v`, most significant first.
pub(crate) fn put_be(out: &mut Vec<u8>, n: usize, v: u64)
    requires
        n <= 8,
    ensures
        final(out)@ == old(out)@ + be_bytes(n as nat, v as nat),
{
    let ghost start = out@;
    let mut i: usize = 0;
    assert(start + be_bytes(0, shifted(v, n as nat)) =~= start);
    while i < n
        invariant
            i <= n <= 8,
            out@ == start + be_bytes(i as nat, shifted(v, (n - i) as nat)),
        decreases n - i,
    {
        let k: u64 = (n - i - 1) as u64;
        let w = v >> (8 * k);
        proof {
            lemma_shifted(v, k);
            lemma_shifted_step(v, k as nat);
        }
        let b = (w % 256) as u8;
        out.push(b);
        i = i + 1;
        proof {
            let s = shifted(v, (n - i) as nat);
            assert(s == w);
            assert(be_bytes(i as nat, s) == be_bytes((i - 1) as nat, s / 256).push((s % 256) as u8));
            assert(out@ =~= start + be_bytes(i as nat, s));
        }
    }
    proof {
        let one = pow256(0);
        assert(one == 1);
        assert(v as nat / one == v) by (nonlinear_arith)
            requires
                one == 1,
        ;
    }
}

/// Multiples of the next power of 256 do not show in the low bytes.
proof fn lemma_be_bytes_wrap(n: nat, v: nat, m: nat, k: nat)
    requires
        n <= k,
    ensures
        be_bytes(n, v + m * pow256(k)) == be_bytes(n, v),
    decreases n,
{
    if n > 0 {
        let p = pow256((k - 1) as nat);
        let w = v + m * pow256(k);
        assert(m * (256 * p) == 256 * (m * p)) by (nonlinear_arith);
        assert(w == v + 256 * (m * p));
        assert(w % 256 == v % 256);
        assert(w / 256 == v / 256 + m * p);
        lemma_be_bytes_wrap((n - 1) as nat, v / 256, m, (k - 1) as nat);
    }
}

/// The low `n` bytes of `a + b + c`, most significant first.
pub(crate) fn be_sum(n: usize, a: usize, b: usize, c: usize) -> (r: Vec<u8>)
    requires
        n <= 8,
    ensures
        r@ == be_bytes(n as nat, (a + b + c) as nat),
{
    let ab: u64 = (a as u64).wrapping_add(b as u64);
    let sum: u64 = ab.wrapping_add(c as u64);
    proof {
        lemma_pow256();
        let all = (a + b + c) as nat;
        let over = (all - sum) as nat / pow256(8);
        assert(all == sum + over * pow256(8));
        lemma_be_bytes_wrap(n as nat, sum as nat, over, 8);
    }
    be(n, sum)
}

/// The low `n` bytes of `v`, most significant first.
pub(crate) fn be(n: usize, v: u64) -> (r: Vec<u8>)
    requires
        n <= 8,
    ensures
        r@ == be_bytes(n as nat, v as nat),
{
    let mut out: Vec<u8> = Vec::new();
    put_be(&mut out, n, v);
    assert(out@ =~= be_bytes(n as nat, v as nat));
    out
}

/// `v` without its low `k` bytes.
pub open spec fn shifted(v: u64, k: nat) -> nat {
    v as nat / pow256(k)
}

proof fn lemma_shifted_step(v: u64, k: nat)
    ensures
        shifted(v, k + 1) == shifted(v, k) / 256,
{
    lemma_pow256_pos(k);
    vstd::arithmetic::div_mod::lemma_div_denominator(v as int, pow256(k) as int, 256);
    assert(pow256(k) * 256 == pow256(k + 1)) by (nonlinear_arith)
        requires
            pow256(k + 1) == 256 * pow256(k),
    ;
}

proof fn lemma_shifted(v: u64, k: u64)
    requires
        k < 8,
    ensures
        v >> (8 * k) as u64 == shifted(v, k as nat),
{
    let n = (8 * k) as u64;
    vstd::bits::lemma_u64_shr_is_div(v, n);
    lemma_pow2_pow256(k as nat);
}

proof fn lemma_pow2_pow256(k: nat)
    ensures
        vstd::arithmetic::power2::pow2(8 * k) == pow256(k),
    decreases k,
{
    vstd::arithmetic::power2::lemma2_to64();
    if k > 0 {
        lemma_pow2_pow256((k - 1) as nat);
        vstd::arithmetic::power2::lemma_pow2_adds(8, (8 * (k - 1)) as nat);
        assert(8 + 8 * (k - 1) == 8 * k);
    } else {
        assert(8 * k == 0);
    }
}

/// The `n` bytes at `at`, least significant first.
pub(crate) fn get_le(data: &[u8], at: usize, n: usize) -> (r: u64)
    requires
        n <= 8,
        at + n <= data@.len(),
    ensures
        r == le_value(data@.subrange(at as int, at + n)),
        r < pow256(n as nat),
{
    let end: usize = data.len();
    let mut v: u64 = 0;
    let mut i: usize = n;
    proof {
        assert(data@.subrange(at + n, at + n) =~= Seq::empty());
        lemma_pow256();
    }
    while i > 0
        invariant
            i <= n <= 8,
            at + n <= end,
            end == data@.len(),
            v == le_value(data@.subrange(at + i, at + n)),
        decreases i,
    {
        i = i - 1;
        proof {
            let s = data@.subrange(at + i, at + n);
            assert(s.skip(1) =~= data@.subrange(at + i + 1, at + n));
            lemma_le_value_bound(s);
            lemma_pow256_le(s.len(), 8);
            lemma_pow256();
        }
        v = v * 256 + data[at + i] as u64;
    }
    proof {
        lemma_le_value_bound(data@.subrange(at as int, at + n));
    }
    v
}

proof fn lemma_pow256_le(a: nat, b: nat)
    requires
        a <= b,
    ensures
        pow256(a) <= pow256(b),
    decreases b,
{
    if a < b {
        lemma_pow256_le(a, (b - 1) as nat);
        lemma_pow256_pos((b - 1) as nat);
    }
}

/// Whether the bytes are the same.
pub(crate) fn same(a: &[u8], b: &[u8]) -> (r: bool)
    ensures
        r == (a@ == b@),
{
    if a.len() != b.len() {
        return false;
    }
    let mut i: usize = 0;
    while i < a.len()
        invariant
            i <= a@.len(),
            a@.len() == b@.len(),
            forall|j: int| 0 <= j < i ==> a@[j] == b@[j],
        decreases a@.len() - i,
    {
        if a[i] != b[i] {
            return false;
        }
        i = i + 1;
    }
    assert(a@ =~= b@);
    true
}

/// Whether `data` has `tag` at `at`.
pub(crate) fn has_tag(data: &[u8], at: usize, tag: [u8; 4]) -> (r: bool)
    requires
        at + 4 <= data@.len(),
    ensures
        r == (data@.subrange(at as int, at + 4) == tag@),
{
    let r = data[at] == tag[0] && data[at + 1] == tag[1] && data[at + 2] == tag[2] && data[at + 3]
        == tag[3];
    proof {
        let s = data@.subrange(at as int, at + 4);
        if r {
            assert(s =~= tag@);
        } else {
            assert(s[0] == data@[at as int] && s[1] == data@[at + 1] && s[2] == data@[at + 2]
                && s[3] == data@[at + 3]);
        }
    }
    r
}

} // verus!
