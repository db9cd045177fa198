//! What the digits of a text say.

use vstd::prelude::*;

use crate::text::{binary, digit, number};

verus! {

/// The number that digits spell, the most significant first.
pub open spec fn value_of(s: Seq<char>, base: nat) -> nat
    decreases s.len(),
{
    if s.len() == 0 {
        0
    } else {
        value_of(s.drop_last(), base) * base + (s.last() as nat - '0' as nat) as nat
    }
}

/// Whether a character is a digit of this base.
pub open spec fn is_digit(c: char, base: nat) -> bool {
    ('0' as nat) <= (c as nat) && (c as nat) < ('0' as nat) + base
}

proof fn lemma_digit(d: u64)
    requires
        d < 10,
    ensures
        digit(d).len() == 1,
        digit(d)[0] as nat == '0' as nat + d,
{
    reveal_strlit("0");
    reveal_strlit("1");
    reveal_strlit("2");
    reveal_strlit("3");
    reveal_strlit("4");
    reveal_strlit("5");
    reveal_strlit("6");
    reveal_strlit("7");
    reveal_strlit("8");
    reveal_strlit("9");
}

/// A number reads back from its digits, and none of them is a zero in front.
pub proof fn numbers_read_back(n: nat)
    ensures
        value_of(number(n), 10) == n,
        number(n).len() > 0,
        forall|i: int| 0 <= i < number(n).len() ==> is_digit(#[trigger] number(n)[i], 10),
        n > 0 ==> number(n)[0] != '0',
    decreases n,
{
    let s = number(n);
    if n < 10 {
        lemma_digit(n as u64);
        assert(s.drop_last() =~= Seq::empty());
        assert(value_of(s.drop_last(), 10) == 0);
    } else {
        numbers_read_back(n / 10);
        lemma_digit((n % 10) as u64);
        assert(s.drop_last() =~= number(n / 10));
        assert(s[0] == number(n / 10)[0]);
        assert(value_of(s, 10) == (n / 10) * 10 + n % 10);
        assert forall|i: int| 0 <= i < s.len() implies is_digit(#[trigger] s[i], 10) by {
            if i < s.len() - 1 {
                assert(s[i] == number(n / 10)[i]);
            } else {
                assert(s[i] == digit((n % 10) as u64)[0]);
            }
        }
    }
}

/// A field of `n` bits has `n` characters, which read back as its value.
pub proof fn bits_read_back(n: nat, v: nat)
    requires
        v < vstd::arithmetic::power2::pow2(n),
    ensures
        binary(n, v).len() == n,
        value_of(binary(n, v), 2) == v,
        forall|i: int| 0 <= i < n ==> is_digit(#[trigger] binary(n, v)[i], 2),
    decreases n,
{
    reveal_strlit("0");
    reveal_strlit("1");
    if n == 0 {
        vstd::arithmetic::power2::lemma2_to64();
    } else {
        let m = (n - 1) as nat;
        vstd::arithmetic::power2::lemma_pow2_unfold(n);
        bits_read_back(m, v / 2);
        let s = binary(n, v);
        assert(s.drop_last() =~= binary(m, v / 2));
        assert(value_of(s, 2) == (v / 2) * 2 + v % 2);
    }
}

} // verus!
