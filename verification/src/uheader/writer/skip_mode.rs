//! When a frame may skip with two references.

use vstd::arithmetic::power2::*;
use vstd::prelude::*;

use crate::uheader::skip_mode;

verus! {

/// How far `a` is ahead of `b` on a clock of `bits` bits, by the shorter way.
pub open spec fn ahead(a: u64, b: u64, bits: nat) -> int {
    let half = pow2((bits - 1) as nat);
    (a - b + half) % (2 * half as int) - half
}

/// The nearest of the first `n` hints that are in the past, as they are met.
pub open spec fn latest_past(hints: Seq<u64>, now: u64, bits: nat, n: nat) -> Option<u64>
    decreases n,
{
    if n == 0 {
        None
    } else {
        let best = latest_past(hints, now, bits, (n - 1) as nat);
        let h = hints[n - 1];
        if ahead(h, now, bits) >= 0 {
            best
        } else if best is Some && ahead(h, best->Some_0, bits) <= 0 {
            best
        } else {
            Some(h)
        }
    }
}

/// Whether there are two references to skip with: one in the past, and one in
/// the future or further in the past.
pub open spec fn two_references(hints: Seq<u64>, now: u64, bits: nat) -> bool {
    latest_past(hints, now, bits, hints.len()) matches Some(p) && exists|i: int|
        0 <= i < hints.len() && (ahead(#[trigger] hints[i], now, bits) > 0 || ahead(
            hints[i],
            p,
            bits,
        ) < 0)
}

proof fn lemma_ahead(a: u64, b: u64, bits: nat)
    requires
        bits >= 1,
    ensures
        ahead(a, b, bits) == skip_mode::relative_dist(a, b, bits),
{
    let half = pow2((bits - 1) as nat) as int;
    lemma_pow2_pos((bits - 1) as nat);
    lemma_pow2_unfold(bits);
    let m = 2 * half;
    assert(pow2(bits) == m);
    let x = a - b;
    let d = x % m;
    let q = x / m;
    assert(x == m * q + d && 0 <= d < m) by (nonlinear_arith)
        requires
            d == x % m,
            q == x / m,
            m > 0,
    ;
    if d >= half {
        assert(x + half == m * (q + 1) + (d - half)) by (nonlinear_arith)
            requires
                x == m * q + d,
                m == 2 * half,
        ;
        vstd::arithmetic::div_mod::lemma_fundamental_div_mod_converse(
            x + half,
            m,
            q + 1,
            d - half,
        );
    } else {
        vstd::arithmetic::div_mod::lemma_fundamental_div_mod_converse(x + half, m, q, d + half);
    }
}

proof fn lemma_latest(hints: Seq<u64>, now: u64, bits: nat, n: nat)
    requires
        bits >= 1,
        n <= hints.len(),
    ensures
        latest_past(hints, now, bits, n) == skip_mode::forward_hint(
            hints.take(n as int),
            now,
            bits,
        ),
    decreases n,
{
    if n > 0 {
        lemma_latest(hints, now, bits, (n - 1) as nat);
        let all = hints.take(n as int);
        assert(all.drop_last() =~= hints.take(n - 1));
        let h = hints[n - 1];
        lemma_ahead(h, now, bits);
        let best = latest_past(hints, now, bits, (n - 1) as nat);
        if best is Some {
            lemma_ahead(h, best->Some_0, bits);
        }
    }
}

pub proof fn lemma_two_references(hints: Seq<u64>, now: u64, bits: nat)
    requires
        bits >= 1,
    ensures
        two_references(hints, now, bits) == skip_mode::skip_mode_allowed(hints, now, bits),
{
    lemma_latest(hints, now, bits, hints.len());
    assert(hints.take(hints.len() as int) =~= hints);
    if let Some(p) = latest_past(hints, now, bits, hints.len()) {
        assert forall|i: int| 0 <= i < hints.len() implies ahead(
            #[trigger] hints[i],
            now,
            bits,
        ) == skip_mode::relative_dist(hints[i], now, bits) && ahead(hints[i], p, bits)
            == skip_mode::relative_dist(hints[i], p, bits) by {
            lemma_ahead(hints[i], now, bits);
            lemma_ahead(hints[i], p, bits);
        }
    }
}

} // verus!
