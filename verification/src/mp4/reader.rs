//! A reader of boxes, to say what the written file holds.

use vstd::prelude::*;

use crate::bytes;
use crate::fields::Field;
use crate::mp4::boxes;

verus! {

/// The number that bytes spell, the most significant one first.
pub open spec fn number(s: Seq<u8>) -> nat
    decreases s.len(),
{
    if s.len() == 0 {
        0
    } else {
        256 * number(s.drop_last()) + s.last() as nat
    }
}

/// A four-character code as a number.
pub open spec fn word(a: char, b: char, c: char, d: char) -> nat {
    ((a as nat * 256 + b as nat) * 256 + c as nat) * 256 + d as nat
}

/// One field of `n` bytes.
pub open spec fn f(n: nat, v: nat) -> Seq<Field> {
    seq![(n, v)]
}

/// Whether the bytes are the fields, one behind the other: how many bytes each
/// has and the number they spell.
pub open spec fn holds(s: Seq<u8>, t: Seq<Field>) -> bool
    decreases t.len(),
{
    if t.len() == 0 {
        s.len() == 0
    } else {
        let n = s.len() - t.last().0;
        &&& 0 <= n
        &&& number(s.skip(n)) == t.last().1
        &&& holds(s.take(n), t.drop_last())
    }
}

/// The boxes that the bytes consist of: the type and the content of each, or
/// nothing where they do not consist of boxes.
pub open spec fn children(s: Seq<u8>) -> Option<Seq<(nat, Seq<u8>)>>
    decreases s.len(),
{
    if s.len() == 0 {
        Some(Seq::empty())
    } else {
        let size = number(s.take(4)) as int;
        if s.len() < 8 || size < 8 || size > s.len() {
            None
        } else {
            match children(s.skip(size)) {
                None => None,
                Some(rest) => Some(
                    seq![(number(s.subrange(4, 8)), s.subrange(8, size))] + rest,
                ),
            }
        }
    }
}

pub proof fn lemma_number_be(n: nat, v: nat)
    ensures
        number(bytes::be_bytes(n, v)) == v % bytes::pow256(n),
    decreases n,
{
    let s = bytes::be_bytes(n, v);
    if n > 0 {
        lemma_number_be((n - 1) as nat, v / 256);
        let head = bytes::be_bytes((n - 1) as nat, v / 256);
        assert(s.drop_last() =~= head);
        bytes::lemma_pow256_pos((n - 1) as nat);
        vstd::arithmetic::div_mod::lemma_mod_breakdown(
            v as int,
            256,
            bytes::pow256((n - 1) as nat) as int,
        );
    } else {
        assert(v % 1 == 0);
    }
}

pub broadcast proof fn lemma_holds_be(n: nat, v: nat)
    requires
        v < bytes::pow256(n),
    ensures
        #[trigger] holds(bytes::be_bytes(n, v), f(n, v)),
{
    let s = bytes::be_bytes(n, v);
    bytes::lemma_be_bytes_len(n, v);
    lemma_number_be(n, v);
    vstd::arithmetic::div_mod::lemma_small_mod(v, bytes::pow256(n));
    assert(s.skip(0) =~= s);
    assert(s.take(0).len() == 0);
    assert(f(n, v).drop_last().len() == 0);
    reveal_with_fuel(holds, 2);
}

/// A number that may be too large for its field.
pub proof fn lemma_holds_low(n: nat, v: nat)
    ensures
        holds(bytes::be_bytes(n, v), f(n, v % bytes::pow256(n))),
{
    let s = bytes::be_bytes(n, v);
    bytes::lemma_be_bytes_len(n, v);
    lemma_number_be(n, v);
    assert(s.skip(0) =~= s);
    assert(s.take(0).len() == 0);
    assert(f(n, v % bytes::pow256(n)).drop_last().len() == 0);
    reveal_with_fuel(holds, 2);
}

proof fn lemma_number_nulls(n: nat)
    ensures
        number(boxes::nulls(n)) == 0,
    decreases n,
{
    if n > 0 {
        lemma_number_nulls((n - 1) as nat);
        assert(boxes::nulls(n).drop_last() =~= boxes::nulls((n - 1) as nat));
    }
}

pub broadcast proof fn lemma_holds_nulls(n: nat)
    ensures
        #[trigger] holds(boxes::nulls(n), f(n, 0)),
{
    let s = boxes::nulls(n);
    lemma_number_nulls(n);
    assert(s.skip(0) =~= s);
    assert(s.take(0).len() == 0);
    assert(f(n, 0).drop_last().len() == 0);
    reveal_with_fuel(holds, 2);
}

pub broadcast proof fn lemma_holds_byte(b: u8)
    ensures
        #[trigger] holds(seq![b], f(1, b as nat)),
{
    let s = seq![b];
    assert(s.skip(0) =~= s);
    assert(s.take(0).len() == 0);
    assert(s.drop_last().len() == 0);
    assert(f(1, b as nat).drop_last().len() == 0);
    reveal_with_fuel(holds, 2);
    reveal_with_fuel(number, 2);
}

pub broadcast proof fn lemma_number_four(a: char, b: char, c: char, d: char)
    requires
        a <= '\u{ff}',
        b <= '\u{ff}',
        c <= '\u{ff}',
        d <= '\u{ff}',
    ensures
        #[trigger] number(boxes::four(a, b, c, d)) == word(a, b, c, d),
{
    let s = boxes::four(a, b, c, d);
    let s3 = s.drop_last();
    let s2 = s3.drop_last();
    let s1 = s2.drop_last();
    assert(s1.drop_last().len() == 0);
    assert(a as u8 as nat == a as nat);
    assert(s1 =~= seq![a as u8]);
    assert(number(s1.drop_last()) == 0);
    assert(number(s1) == a as nat);
    assert(number(s2) == a as nat * 256 + b as nat);
    assert(number(s3) == (a as nat * 256 + b as nat) * 256 + c as nat);
}

pub broadcast proof fn lemma_holds_four(a: char, b: char, c: char, d: char)
    requires
        a <= '\u{ff}',
        b <= '\u{ff}',
        c <= '\u{ff}',
        d <= '\u{ff}',
    ensures
        #[trigger] holds(boxes::four(a, b, c, d), f(4, word(a, b, c, d))),
{
    let s = boxes::four(a, b, c, d);
    lemma_number_four(a, b, c, d);
    assert(s.skip(0) =~= s);
    assert(s.take(0).len() == 0);
    assert(f(4, word(a, b, c, d)).drop_last().len() == 0);
    reveal_with_fuel(holds, 2);
}

pub broadcast proof fn lemma_holds_append(
    a: Seq<u8>,
    ta: Seq<Field>,
    b: Seq<u8>,
    tb: Seq<Field>,
)
    requires
        holds(a, ta),
        holds(b, tb),
    ensures
        #[trigger] holds(a + b, ta + tb),
    decreases tb.len(),
{
    if tb.len() == 0 {
        assert(a + b =~= a);
        assert(ta + tb =~= ta);
    } else {
        let n = b.len() - tb.last().0;
        let s = a + b;
        let t = ta + tb;
        lemma_holds_append(a, ta, b.take(n), tb.drop_last());
        assert(t.last() == tb.last());
        assert(t.drop_last() =~= ta + tb.drop_last());
        let m = s.len() - t.last().0;
        assert(m == a.len() + n);
        assert(s.skip(m) =~= b.skip(n));
        assert(s.take(m) =~= a + b.take(n));
    }
}

/// How fields add up.
pub broadcast group group_holds {
    lemma_holds_be,
    lemma_holds_nulls,
    lemma_holds_byte,
    lemma_holds_four,
    lemma_holds_append,
}

pub broadcast proof fn lemma_children_append(a: Seq<u8>, b: Seq<u8>)
    requires
        children(a) is Some,
        children(b) is Some,
    ensures
        (#[trigger] children(a + b)) == Some(children(a)->Some_0 + children(b)->Some_0),
    decreases a.len(),
{
    let s = a + b;
    if a.len() == 0 {
        assert(s =~= b);
        assert(children(a)->Some_0 + children(b)->Some_0 =~= children(b)->Some_0);
    } else {
        let size = number(a.take(4)) as int;
        assert(s.take(4) =~= a.take(4));
        assert(s.subrange(4, 8) =~= a.subrange(4, 8));
        assert(s.subrange(8, size) =~= a.subrange(8, size));
        assert(s.skip(size) =~= a.skip(size) + b);
        lemma_children_append(a.skip(size), b);
        assert(children(s)->Some_0 =~= children(a)->Some_0 + children(b)->Some_0);
    }
}

pub broadcast proof fn lemma_children_box(fourcc: Seq<u8>, p: Seq<u8>)
    requires
        fourcc.len() == 4,
        p.len() + 8 <= u32::MAX,
    ensures
        (#[trigger] children(boxes::box_bytes(fourcc, p))) == Some(seq![(number(fourcc), p)]),
{
    let s = boxes::box_bytes(fourcc, p);
    let head = bytes::be_bytes(4, p.len() + 8);
    bytes::lemma_be_bytes_len(4, p.len() + 8);
    lemma_number_be(4, p.len() + 8);
    bytes::lemma_pow256();
    vstd::arithmetic::div_mod::lemma_small_mod(p.len() + 8, bytes::pow256(4));
    let size = (p.len() + 8) as int;
    assert(s.take(4) =~= head);
    assert(s.subrange(4, 8) =~= fourcc);
    assert(s.subrange(8, size) =~= p);
    assert(s.skip(size).len() == 0);
    assert(children(s.skip(size)) == Some(Seq::<(nat, Seq<u8>)>::empty()));
    assert(children(s)->Some_0 =~= seq![(number(fourcc), p)]);
}

/// How boxes line up.
pub broadcast group group_children {
    lemma_children_append,
    lemma_children_box,
    lemma_number_four,
}

} // verus!
