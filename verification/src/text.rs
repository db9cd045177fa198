//! Numbers and lists as text.

use vstd::prelude::*;

pub mod reading;

verus! {

/// A decimal digit.
pub open spec fn digit(d: u64) -> Seq<char> {
    match d {
        0 => "0"@,
        1 => "1"@,
        2 => "2"@,
        3 => "3"@,
        4 => "4"@,
        5 => "5"@,
        6 => "6"@,
        7 => "7"@,
        8 => "8"@,
        _ => "9"@,
    }
}

/// A number in decimal.
pub open spec fn number(n: nat) -> Seq<char>
    decreases n,
{
    if n < 10 {
        digit(n as u64)
    } else {
        number(n / 10) + digit((n % 10) as u64)
    }
}

/// The low `n` bits of `v`, most significant first.
pub open spec fn binary(n: nat, v: nat) -> Seq<char>
    decreases n,
{
    if n == 0 {
        Seq::empty()
    } else {
        binary((n - 1) as nat, v / 2) + if v % 2 == 1 {
            "1"@
        } else {
            "0"@
        }
    }
}

/// The numbers with commas between them.
pub open spec fn commas(numbers: Seq<nat>) -> Seq<char>
    decreases numbers.len(),
{
    if numbers.len() == 0 {
        Seq::empty()
    } else if numbers.len() == 1 {
        number(numbers[0])
    } else {
        commas(numbers.drop_last()) + ", "@ + number(numbers.last())
    }
}

/// A list of numbers in brackets.
pub open spec fn list(numbers: Seq<nat>) -> Seq<char> {
    "["@ + commas(numbers) + "]"@
}

/// `true` as 1, `false` as 0.
pub open spec fn one_or_zero(b: bool) -> Seq<char> {
    if b {
        "1"@
    } else {
        "0"@
    }
}

fn digit_text(d: u64) -> (r: &'static str)
    requires
        d < 10,
    ensures
        r@ == digit(d),
{
    match d {
        0 => "0",
        1 => "1",
        2 => "2",
        3 => "3",
        4 => "4",
        5 => "5",
        6 => "6",
        7 => "7",
        8 => "8",
        _ => "9",
    }
}

pub(crate) fn number_text(n: u64) -> (r: String)
    ensures
        r@ == number(n as nat),
    decreases n,
{
    if n < 10 {
        String::from_str(digit_text(n))
    } else {
        let mut s = number_text(n / 10);
        s.append(digit_text(n % 10));
        s
    }
}

pub(crate) fn put_number(out: &mut String, n: u64)
    ensures
        final(out)@ == old(out)@ + number(n as nat),
{
    let s = number_text(n);
    out.append(s.as_str());
}

pub(crate) fn one_or_zero_text(b: bool) -> (r: &'static str)
    ensures
        r@ == one_or_zero(b),
{
    if b {
        "1"
    } else {
        "0"
    }
}

pub(crate) fn binary_text(n: usize, v: u64) -> (r: String)
    ensures
        r@ == binary(n as nat, v as nat),
    decreases n,
{
    if n == 0 {
        let s = String::new();
        assert(s@ =~= Seq::<char>::empty());
        s
    } else {
        let mut s = binary_text(n - 1, v / 2);
        s.append(one_or_zero_text(v % 2 == 1));
        s
    }
}

pub(crate) fn list_text(numbers: &Vec<usize>) -> (r: String)
    ensures
        r@ == list(Seq::new(numbers@.len(), |i: int| numbers@[i] as nat)),
{
    let ghost all = Seq::new(numbers@.len(), |i: int| numbers@[i] as nat);
    let mut s = String::from_str("[");
    let mut i: usize = 0;
    assert(all.take(0) =~= Seq::empty());
    assert("["@ + commas(all.take(0)) =~= "["@);
    while i < numbers.len()
        invariant
            i <= numbers@.len(),
            all == Seq::new(numbers@.len(), |i: int| numbers@[i] as nat),
            s@ == "["@ + commas(all.take(i as int)),
        decreases numbers@.len() - i,
    {
        let ghost before = all.take(i as int);
        if i > 0 {
            s.append(", ");
        }
        put_number(&mut s, numbers[i] as u64);
        proof {
            let next = all.take(i + 1);
            assert(next.drop_last() =~= before);
            assert(next.last() == numbers@[i as int]);
            if i == 0 {
                assert(before =~= Seq::empty());
                assert(s@ =~= "["@ + commas(next));
            } else {
                assert(s@ =~= "["@ + commas(next));
            }
        }
        i = i + 1;
    }
    assert(all.take(i as int) =~= all);
    s.append("]");
    s
}

} // verus!
