//! Where the parts of an OBU stand.

use vstd::arithmetic::power2::*;
use vstd::prelude::*;

use crate::bitio;
use crate::error::Error;
use crate::fields::{self, flag, spelled, Field};
use crate::obu::{self, Obu, ObuType};

verus! {

/// The number of an OBU type.
pub open spec fn type_number(t: ObuType) -> nat {
    match t {
        ObuType::Padding => 15,
        ObuType::TileList => 8,
        ObuType::RedundantFrameHeader => 7,
        ObuType::Frame => 6,
        ObuType::Metadata => 5,
        ObuType::TileGroup => 4,
        ObuType::FrameHeader => 3,
        ObuType::TemporalDelimiter => 2,
        ObuType::SequenceHeader => 1,
        ObuType::Reserved0 => 0,
    }
}

/// The bits of a header byte: a zero bit, the type, whether an extension byte
/// and whether a size follow, and a reserved bit.
pub open spec fn header_fields(t: ObuType, extended: bool, sized: bool, reserved: bool) -> Seq<
    Field,
> {
    seq![flag(false), (4, type_number(t)), flag(extended), flag(sized), flag(reserved)]
}

/// The number that bytes spell with seven bits each, byte `i` counting `128^i`.
pub open spec fn base128(s: Seq<u8>) -> nat
    decreases s.len(),
{
    if s.len() == 0 {
        0
    } else {
        base128(s.drop_last()) + (s.last() % 128) as nat * pow2(7 * ((s.len() - 1) as nat))
    }
}

/// Whether `s` spells `v`: the bytes but for the last have their high bit set.
pub open spec fn is_leb128(s: Seq<u8>, v: nat) -> bool {
    &&& 1 <= s.len()
    &&& forall|i: int| 0 <= i < s.len() - 1 ==> #[trigger] s[i] >= 128
    &&& s.last() < 128
    &&& base128(s) == v
}

proof fn lemma_base128(s: Seq<u8>)
    ensures
        base128(s) == bitio::leb128_value(s),
    decreases s.len(),
{
    if s.len() > 0 {
        lemma_base128(s.drop_last());
        bitio::lemma_leb128_value_push(s.drop_last(), s.last());
        assert(s.drop_last().push(s.last()) =~= s);
    }
}

proof fn lemma_leb128_bytes(v: nat)
    ensures
        is_leb128(bitio::leb128_bytes(v), v),
        v >= 128 ==> bitio::leb128_bytes(v).last() > 0,
    decreases v,
{
    let s = bitio::leb128_bytes(v);
    lemma_base128(s);
    bitio::lemma_leb128_value_bytes(v);
    if v >= 128 {
        lemma_leb128_bytes(v / 128);
        let rest = bitio::leb128_bytes(v / 128);
        assert forall|i: int| 0 <= i < s.len() - 1 implies #[trigger] s[i] >= 128 by {
            if i > 0 {
                assert(s[i] == rest[i - 1]);
            }
        }
        assert(s.last() == rest.last());
        if v / 128 < 128 {
            assert(rest.last() == (v / 128) as u8);
        }
    }
}

proof fn lemma_leb128_end(data: Seq<u8>, i: nat)
    requires
        bitio::leb128_end(data, i) is Ok,
        forall|j: int| 0 <= j < i ==> #[trigger] data[j] >= 128,
    ensures
        ({
            let n = bitio::leb128_end(data, i)->Ok_0;
            &&& i < n <= data.len()
            &&& n <= 8
            &&& data[n - 1] < 128
            &&& forall|j: int| 0 <= j < n - 1 ==> #[trigger] data[j] >= 128
        }),
    decreases data.len() - i,
{
    if data[i as int] >= 128 {
        lemma_leb128_end(data, i + 1);
    }
}

proof fn lemma_base128_bound(s: Seq<u8>)
    ensures
        base128(s) < pow2(7 * s.len()),
    decreases s.len(),
{
    lemma2_to64();
    if s.len() > 0 {
        let n = (s.len() - 1) as nat;
        lemma_base128_bound(s.drop_last());
        lemma_pow2_adds(7, 7 * n);
        assert(7 + 7 * n == 7 * s.len());
        let a = (s.last() % 128) as nat;
        let p = pow2(7 * n);
        assert(a * p + p <= 128 * p) by (nonlinear_arith)
            requires
                a <= 127,
        ;
    }
}

proof fn lemma_leb128(data: Seq<u8>)
    requires
        bitio::leb128(data) is Ok,
    ensures
        ({
            let (size, n) = bitio::leb128(data)->Ok_0;
            &&& 1 <= n <= 8
            &&& n <= data.len()
            &&& is_leb128(data.take(n as int), size as nat)
        }),
{
    lemma_leb128_end(data, 0);
    let n = bitio::leb128_end(data, 0)->Ok_0;
    let s = data.take(n as int);
    lemma_base128(s);
    lemma_base128_bound(s);
    bitio::lemma_pow2_monotone(7 * n, 56);
    lemma2_to64_rest();
}

proof fn lemma_header(b: u8, t: ObuType, extended: bool, sized: bool, reserved: bool)
    requires
        b == type_number(t) * 8 + (if extended {
            4int
        } else {
            0
        }) + (if sized {
            2int
        } else {
            0
        }) + (if reserved {
            1int
        } else {
            0
        }),
    ensures
        forall|data: Seq<u8>|
            data.len() > 0 && data[0] == b ==> #[trigger] fields::lead(
                data,
                header_fields(t, extended, sized, reserved),
            ),
{
    let f = header_fields(t, extended, sized, reserved);
    let s = spelled(f);
    lemma_spelled(f);
    lemma2_to64();
    let n = type_number(t);
    assert(n < 16);
    assert(s.len() == 8);
    assert(s[0] == false);
    assert(s[1] == ((n / 8) % 2 == 1));
    assert(s[2] == ((n / 4) % 2 == 1));
    assert(s[3] == ((n / 2) % 2 == 1));
    assert(s[4] == ((n / 1) % 2 == 1));
    assert(s[5] == extended && s[6] == sized && s[7] == reserved);
    assert forall|data: Seq<u8>| data.len() > 0 && data[0] == b implies #[trigger] fields::lead(
        data,
        f,
    ) by {
        assert forall|i: int| 0 <= i < s.len() implies s[i] == #[trigger] fields::bit(data, i) by {
            let v = b as nat;
            assert(v / 128 == 0);
            assert((v / 64) % 2 == (n / 8) % 2);
            assert((v / 32) % 2 == (n / 4) % 2);
            assert((v / 16) % 2 == (n / 2) % 2);
            assert((v / 8) % 2 == n % 2);
            assert((v / 4) % 2 == if extended {
                1nat
            } else {
                0
            });
            assert((v / 2) % 2 == if sized {
                1nat
            } else {
                0
            });
            assert((v / 1) % 2 == if reserved {
                1nat
            } else {
                0
            });
            assert(i / 8 == 0 && i % 8 == i);
            assert(i == 0 || i == 1 || i == 2 || i == 3 || i == 4 || i == 5 || i == 6 || i == 7);
        }
    }
}

/// The bits of five fields.
proof fn lemma_spelled(f: Seq<Field>)
    requires
        f.len() == 5,
    ensures
        spelled(f) == fields::msb_first(f[0]) + fields::msb_first(f[1]) + fields::msb_first(f[2])
            + fields::msb_first(f[3]) + fields::msb_first(f[4]),
{
    let a = f.drop_last();
    let b = a.drop_last();
    let c = b.drop_last();
    let d = c.drop_last();
    assert(d.drop_last().len() == 0);
    assert(spelled(d.drop_last()) =~= Seq::empty());
    assert(spelled(d) =~= fields::msb_first(f[0]));
    assert(spelled(c) == fields::msb_first(f[0]) + fields::msb_first(f[1]));
    assert(spelled(b) == spelled(c) + fields::msb_first(f[2]));
    assert(spelled(a) == spelled(b) + fields::msb_first(f[3]));
}

/// An OBU is written as its header byte, its extension byte where it has one,
/// the length of its payload with no byte more than it needs, and the payload.
pub proof fn written_obus_are_laid_out(o: Obu)
    ensures
        ({
            let data = o@.bytes();
            let at: int = if o.extension is Some {
                2
            } else {
                1
            };
            let end = data.len() - o.payload@.len();
            let size = data.subrange(at, end);
            &&& fields::lead(
                data,
                header_fields(o.obu_type, o.extension is Some, true, false),
            )
            &&& o.extension matches Some(e) ==> data[1] == e
            &&& at < end
            &&& is_leb128(size, o.payload@.len())
            &&& size.len() > 1 ==> size.last() > 0
            &&& data.skip(end) == o.payload@
        }),
{
    let data = o@.bytes();
    let n = o.payload@.len();
    let s = bitio::leb128_bytes(n);
    lemma_leb128_bytes(n);
    let at: int = if o.extension is Some {
        2
    } else {
        1
    };
    assert(data.subrange(at, at + s.len()) =~= s);
    assert(data.skip(at + s.len()) =~= o.payload@);
    assert(data.len() == at + s.len() + n);
    lemma_header(o@.header_byte(), o.obu_type, o.extension is Some, true, false);
    assert(data[0] == o@.header_byte());
    if s.len() > 1 {
        assert(n >= 128);
    }
}

/// The header byte of the first OBU.
proof fn lemma_front_byte(data: Seq<u8>)
    requires
        data.len() > 0,
        obu::front_obu(data) is Ok,
    ensures
        ({
            let o = obu::front_obu(data)->Ok_0.0;
            let b = data[0];
            fields::lead(
                data,
                header_fields(o.obu_type, o.extension is Some, (b / 2) % 2 != 0, b % 2 != 0),
            )
        }),
{
    let o = obu::front_obu(data)->Ok_0.0;
    let b = data[0];
    assert(type_number(o.obu_type) == (b / 8) % 16);
    let sized = (b / 2) % 2 != 0;
    let reserved = b % 2 != 0;
    assert((b / 4) % 2 != 0 <==> o.extension is Some);
    assert(b == ((b / 8) % 16) * 8 + ((b / 4) % 2) * 4 + ((b / 2) % 2) * 2 + b % 2);
    lemma_header(b, o.obu_type, o.extension is Some, sized, reserved);
}

/// Where the payload of the first OBU stands.
proof fn lemma_front_payload(data: Seq<u8>)
    requires
        data.len() > 0,
        obu::front_obu(data) is Ok,
    ensures
        ({
            let (o, n) = obu::front_obu(data)->Ok_0;
            let at: int = if o.extension is Some {
                2
            } else {
                1
            };
            let start = n - o.payload.len();
            &&& o.extension matches Some(e) ==> data.len() > 1 && data[1] == e
            &&& at <= start
            &&& n <= data.len()
            &&& data.subrange(start, n as int) == o.payload
            &&& if (data[0] / 2) % 2 != 0 {
                start - at <= 8 && is_leb128(data.subrange(at, start), o.payload.len())
            } else {
                start == at && n == data.len()
            }
        }),
{
    let (o, n) = obu::front_obu(data)->Ok_0;
    let at: int = if o.extension is Some {
        2
    } else {
        1
    };
    let start = n - o.payload.len();
    if (data[0] / 2) % 2 != 0 {
        lemma_leb128(data.skip(at));
        let m = bitio::leb128(data.skip(at))->Ok_0.1;
        assert(start == at + m);
        assert(data.skip(at).take(m as int) =~= data.subrange(at, start));
    }
}

/// Bytes that split into OBUs start with the first one: its header byte says
/// its type, the extension byte follows where it says so, and the payload is as
/// long as the size says, or runs to the end where there is none. The rest
/// splits into the others.
pub proof fn split_obus_are_laid_out(data: Seq<u8>) -> (r: (bool, bool, int))
    requires
        obu::obus_of(data) is Ok,
        data.len() > 0,
    ensures
        ({
            let list = obu::obus_of(data)->Ok_0;
            let o = list[0];
            let (sized, reserved, start) = r;
            let at: int = if o.extension is Some {
                2
            } else {
                1
            };
            let end = start + o.payload.len();
            &&& list.len() > 0
            &&& fields::lead(
                data,
                header_fields(o.obu_type, o.extension is Some, sized, reserved),
            )
            &&& o.extension matches Some(e) ==> data.len() > 1 && data[1] == e
            &&& at <= start
            &&& end <= data.len()
            &&& data.subrange(start, end) == o.payload
            &&& if sized {
                start - at <= 8 && is_leb128(data.subrange(at, start), o.payload.len())
            } else {
                start == at && end == data.len()
            }
            &&& obu::obus_of(data.skip(end)) == Ok::<Seq<Obu<Seq<u8>>>, Error>(list.skip(1))
        }),
{
    let (o, n) = obu::front_obu(data)->Ok_0;
    let rest = obu::obus_of(data.skip(n as int))->Ok_0;
    let list = obu::obus_of(data)->Ok_0;
    assert(list.skip(1) =~= rest);
    assert(list[0] == o);
    lemma_front_byte(data);
    lemma_front_payload(data);
    ((data[0] / 2) % 2 != 0, data[0] % 2 != 0, n - o.payload.len())
}

} // verus!
