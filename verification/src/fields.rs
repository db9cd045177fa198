//! Bit strings told as lists of fields, each a width in bits and a number.

use vstd::arithmetic::power2::*;
use vstd::prelude::*;

use crate::bitio;

verus! {

/// A field: how many bits it has and the number they spell.
pub type Field = (nat, nat);

/// A field of one bit.
pub open spec fn flag(b: bool) -> Field {
    (
        1,
        if b {
            1
        } else {
            0
        },
    )
}

/// The bits of a field, the most significant one first.
pub open spec fn msb_first(f: Field) -> Seq<bool> {
    Seq::new(f.0, |i: int| (f.1 / pow2((f.0 - 1 - i) as nat)) % 2 == 1)
}

/// The bits of the fields, one field behind the other.
pub open spec fn spelled(fields: Seq<Field>) -> Seq<bool>
    decreases fields.len(),
{
    if fields.len() == 0 {
        Seq::empty()
    } else {
        spelled(fields.drop_last()) + msb_first(fields.last())
    }
}

/// How many bits the fields have together.
pub open spec fn width(fields: Seq<Field>) -> nat
    decreases fields.len(),
{
    if fields.len() == 0 {
        0
    } else {
        width(fields.drop_last()) + fields.last().0
    }
}

/// The exponent of the largest power of two that is not above `n`.
pub open spec fn exponent(n: nat) -> nat
    decreases n,
{
    if n < 2 {
        0
    } else {
        exponent(n / 2) + 1
    }
}

/// A number of unlimited size: as many zero bits in front of its successor as
/// the successor has bits behind its first.
pub open spec fn uvlc(v: nat) -> Field {
    (2 * exponent(v + 1) + 1, v + 1)
}

/// Bit `i` of the bytes, where bit 0 is the one of the first byte that counts
/// 128.
pub open spec fn bit(data: Seq<u8>, i: int) -> bool {
    (data[i / 8] as nat / pow2((7 - i % 8) as nat)) % 2 == 1
}

/// Whether the bytes start with the fields.
pub open spec fn lead(data: Seq<u8>, fields: Seq<Field>) -> bool {
    let bits = spelled(fields);
    &&& bits.len() <= 8 * data.len()
    &&& forall|i: int| 0 <= i < bits.len() ==> bits[i] == #[trigger] bit(data, i)
}

pub proof fn lemma_be_bits(f: Field)
    ensures
        msb_first(f) == bitio::be_bits(f.0, f.1),
{
    bitio::lemma_be_bits_len(f.0, f.1);
    assert forall|i: int| 0 <= i < f.0 implies msb_first(f)[i] == bitio::be_bits(f.0, f.1)[i] by {
        bitio::lemma_be_bits_at(f.0, f.1, i);
    }
    assert(msb_first(f) =~= bitio::be_bits(f.0, f.1));
}

pub broadcast proof fn lemma_spelled_push(t: Seq<Field>, f: Field)
    ensures
        #[trigger] spelled(t.push(f)) == spelled(t) + bitio::be_bits(f.0, f.1),
{
    lemma_be_bits(f);
    assert(t.push(f).drop_last() =~= t);
}

pub broadcast proof fn lemma_spelled_flag(t: Seq<Field>, b: bool)
    ensures
        #[trigger] spelled(t.push(flag(b))) == spelled(t).push(b),
{
    lemma2_to64();
    lemma_be_bits(flag(b));
    assert(t.push(flag(b)).drop_last() =~= t);
    assert(msb_first(flag(b)) =~= seq![b]) by {
        assert(1nat / pow2(0) == 1 && 0nat / pow2(0) == 0);
    }
    assert(spelled(t) + seq![b] =~= spelled(t).push(b));
}

pub proof fn lemma_exponent(n: nat)
    ensures
        exponent(n) == bitio::floor_log2(n),
    decreases n,
{
    if n >= 2 {
        lemma_exponent(n / 2);
    }
}

pub broadcast proof fn lemma_spelled_uvlc(t: Seq<Field>, v: nat)
    ensures
        #[trigger] spelled(t.push(uvlc(v))) == spelled(t) + bitio::uvlc_bits(v),
{
    let z = exponent(v + 1);
    lemma_exponent(v + 1);
    bitio::lemma_floor_log2(v + 1);
    let f = uvlc(v);
    lemma_spelled_push(t, f);
    bitio::lemma_be_bits_len(f.0, f.1);
    bitio::lemma_be_bits_len(z, v + 1);
    let a = bitio::be_bits(f.0, f.1);
    let b = bitio::uvlc_bits(v);
    assert forall|i: int| 0 <= i < f.0 implies a[i] == b[i] by {
        bitio::lemma_be_bits_at(f.0, f.1, i);
        let k = (f.0 - 1 - i) as nat;
        if i < z {
            bitio::lemma_pow2_monotone(z + 1, k);
            vstd::arithmetic::div_mod::lemma_basic_div((v + 1) as int, pow2(k) as int);
        } else if i == z {
            lemma_pow2_unfold(z + 1);
            vstd::arithmetic::div_mod::lemma_fundamental_div_mod_converse(
                (v + 1) as int,
                pow2(z) as int,
                1,
                v + 1 - pow2(z),
            );
        } else {
            bitio::lemma_be_bits_at(z, v + 1, i - z - 1);
        }
    }
    assert(a =~= b);
}

/// The rules by which lists of fields grow.
pub broadcast group group_spelled {
    lemma_spelled_push,
    lemma_spelled_flag,
    lemma_spelled_uvlc,
}

pub proof fn lemma_width(fields: Seq<Field>)
    ensures
        spelled(fields).len() == width(fields),
    decreases fields.len(),
{
    if fields.len() > 0 {
        lemma_width(fields.drop_last());
    }
}

pub proof fn lemma_bit(data: Seq<u8>, i: int)
    requires
        0 <= i < 8 * data.len(),
    ensures
        bit(data, i) == bitio::bits_of(data)[i],
{
    lemma2_to64();
    let b = data[i / 8];
    assert((b >> 0u8) & 1 == (b / 1) % 2 && (b >> 1u8) & 1 == (b / 2) % 2 && (b >> 2u8) & 1 == (b
        / 4) % 2 && (b >> 3u8) & 1 == (b / 8) % 2 && (b >> 4u8) & 1 == (b / 16) % 2 && (b >> 5u8)
        & 1 == (b / 32) % 2 && (b >> 6u8) & 1 == (b / 64) % 2 && (b >> 7u8) & 1 == (b / 128) % 2)
        by (bit_vector);
    let k = 7 - i % 8;
    assert(k == 0 || k == 1 || k == 2 || k == 3 || k == 4 || k == 5 || k == 6 || k == 7);
}

pub proof fn lemma_lead(data: Seq<u8>, fields: Seq<Field>)
    requires
        bitio::starts(bitio::bits_of(data), spelled(fields)),
    ensures
        lead(data, fields),
{
    let bits = spelled(fields);
    assert forall|i: int| 0 <= i < bits.len() implies bits[i] == #[trigger] bit(data, i) by {
        lemma_bit(data, i);
        assert(bitio::bits_of(data).take(bits.len() as int)[i] == bits[i]);
    }
}

pub proof fn lemma_lead_starts(data: Seq<u8>, fields: Seq<Field>)
    requires
        lead(data, fields),
    ensures
        bitio::starts(bitio::bits_of(data), spelled(fields)),
{
    let bits = spelled(fields);
    let all = bitio::bits_of(data);
    assert forall|i: int| 0 <= i < bits.len() implies bits[i] == all[i] by {
        lemma_bit(data, i);
    }
    assert(all.take(bits.len() as int) =~= bits);
}

} // verus!
