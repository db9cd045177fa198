//! Big-endian bit-level reader/writer for AV1 bitstream syntax.

use vstd::prelude::*;
use vstd::arithmetic::power2::*;

use crate::error::Error;

verus! {

// ---------- bits of a byte string ----------

/// Bit `i` of `data`, counted from the most significant bit of the first byte.
pub open spec fn bit_at(data: Seq<u8>, i: int) -> bool {
    (data[i / 8] >> ((7 - i % 8) as u8)) & 1u8 == 1u8
}

/// All bits of `data`, most significant first.
pub open spec fn bits_of(data: Seq<u8>) -> Seq<bool> {
    Seq::new(8 * data.len(), |i: int| bit_at(data, i))
}

/// The unsigned integer that `bits` spells, most significant bit first.
pub open spec fn value(bits: Seq<bool>) -> nat
    decreases bits.len(),
{
    if bits.len() == 0 {
        0
    } else {
        2 * value(bits.drop_last()) + (if bits.last() { 1nat } else { 0 })
    }
}

/// The low `n` bits of `v`, most significant first.
pub open spec fn be_bits(n: nat, v: nat) -> Seq<bool>
    decreases n,
{
    if n == 0 {
        Seq::empty()
    } else {
        be_bits((n - 1) as nat, v / 2).push(v % 2 == 1)
    }
}

pub proof fn lemma_value_bound(bits: Seq<bool>)
    ensures
        value(bits) < pow2(bits.len()),
    decreases bits.len(),
{
    lemma2_to64();
    if bits.len() > 0 {
        lemma_value_bound(bits.drop_last());
        lemma_pow2_unfold(bits.len());
    }
}

// ---------- reading ----------

/// A reading position in a bit string. Once a read fails, the cursor keeps
/// that first error and every later read leaves it as it is.
pub struct Cur {
    pub bits: Seq<bool>,
    /// How many bits were read.
    pub pos: nat,
    pub err: Option<Error>,
}

impl Cur {
    /// The cursor before the first bit of `data`.
    pub open spec fn start(data: Seq<u8>) -> Cur {
        Cur { bits: bits_of(data), pos: 0, err: None }
    }

    /// The bits that were read.
    pub open spec fn seen(self) -> Seq<bool> {
        self.bits.take(self.pos as int)
    }

    /// Whether nothing failed so far and the position is within the bits.
    pub open spec fn ready(self) -> bool {
        self.err is None && self.pos <= self.bits.len()
    }

    /// Whether reading led from `from` to here without failing, `w` being all
    /// the bits read.
    pub open spec fn reached(self, from: Cur, w: Seq<bool>) -> bool {
        self.ready() && self.bits == from.bits && self.seen() == w
    }

    /// Whether nothing failed so far, the position can be told in a `usize`
    /// everywhere, and `w` is how the bits start.
    pub open spec fn expects(self, w: Seq<bool>) -> bool {
        self.ready() && self.bits.len() <= usize::MAX && starts(self.bits, w)
    }

    /// Whether `n` more bits are there, at a position that a `usize` holds.
    pub open spec fn holds(self, n: nat) -> bool {
        self.pos + n <= self.bits.len() && self.pos + n <= usize::MAX
    }

    pub open spec fn fail(self, e: Error) -> Cur {
        if self.err is Some {
            self
        } else {
            Cur { err: Some(e), ..self }
        }
    }

    /// f(n): the next `n` bits as an unsigned integer.
    pub open spec fn f(self, n: nat) -> (u64, Cur) {
        if self.err is Some {
            (0, self)
        } else if n > 64 {
            (0, self.fail(Error::FieldTooWide))
        } else if !self.holds(n) {
            (0, self.fail(Error::UnexpectedEnd))
        } else {
            (
                value(self.bits.subrange(self.pos as int, (self.pos + n) as int)) as u64,
                Cur { pos: self.pos + n, ..self },
            )
        }
    }

    /// f(1) as a flag.
    pub open spec fn flag(self) -> (bool, Cur) {
        let (v, c) = self.f(1);
        (v == 1, c)
    }
}

/// How a reader call relates the cursors before and after it to `out`, the
/// value and cursor that the syntax gives: on success they are what came back,
/// on failure the syntax fails with the same error.
pub open spec fn reads<T>(after: Cur, r: Result<T, Error>, out: (T, Cur)) -> bool {
    match r {
        Ok(v) => out.1.err is None && out.0 == v && out.1 == after,
        Err(e) => out.1.err == Some(e),
    }
}

/// The cursor after `n` repetitions of a piece of syntax.
pub open spec fn times(c: Cur, n: nat, step: spec_fn(Cur) -> Cur) -> Cur
    decreases n,
{
    if n == 0 {
        c
    } else {
        step(times(c, (n - 1) as nat, step))
    }
}

/// Whether a piece of syntax leaves a cursor that failed as it is.
pub open spec fn sticky(step: spec_fn(Cur) -> Cur) -> bool {
    forall|c: Cur| c.err is Some ==> #[trigger] step(c) == c
}

pub proof fn lemma_times_fail(c: Cur, i: nat, n: nat, step: spec_fn(Cur) -> Cur)
    requires
        i <= n,
        sticky(step),
        times(c, i, step).err is Some,
    ensures
        times(c, n, step) == times(c, i, step),
    decreases n,
{
    if i < n {
        lemma_times_fail(c, i, (n - 1) as nat, step);
    }
}

/// How a reader call that gives no value relates the cursors before and after
/// it to `out`, the cursor that the syntax gives.
pub open spec fn skips(after: Cur, r: Result<(), Error>, out: Cur) -> bool {
    match r {
        Ok(_) => out.err is None && out == after,
        Err(e) => out.err == Some(e),
    }
}

/// What a read from the start of `data` to the end of some syntax gives.
pub open spec fn outcome<T>(out: (T, Cur)) -> Result<T, Error> {
    match out.1.err {
        None => Ok(out.0),
        Some(e) => Err(e),
    }
}

pub struct BitReader<'a> {
    data: &'a [u8],
    /// Next bit position (0 = MSB of first byte).
    pos: usize,
}

impl<'a> View for BitReader<'a> {
    type V = Cur;

    closed spec fn view(&self) -> Cur {
        Cur { bits: bits_of(self.data@), pos: self.pos as nat, err: None }
    }
}

/// A reader itself has not failed: a failing call says so in its result.
pub broadcast proof fn lemma_reader_ok(r: BitReader)
    ensures
        (#[trigger] r@).err is None,
{
}

impl<'a> BitReader<'a> {
    #[verifier::type_invariant]
    spec fn in_range(self) -> bool {
        self.pos <= 8 * self.data@.len()
    }

    pub fn new(data: &'a [u8]) -> (r: Self)
        ensures
            r@ == Cur::start(data@),
    {
        BitReader { data, pos: 0 }
    }

    pub fn position(&self) -> (r: usize)
        ensures
            r == self@.pos,
    {
        self.pos
    }

    /// f(n): read n bits as a fixed-length unsigned integer.
    pub fn f(&mut self, n: usize) -> (r: Result<u64, Error>)
        ensures
            reads(final(self)@, r, old(self)@.f(n as nat)),
            r is Err ==> final(self)@ == old(self)@,
    {
        proof {
            use_type_invariant(&*self);
        }
        if n > 64 {
            return Err(Error::FieldTooWide);
        }
        if n > usize::MAX - self.pos {
            return Err(Error::UnexpectedEnd);
        }
        let end: usize = self.pos + n;
        if end / 8 > self.data.len() || (end / 8 == self.data.len() && end % 8 != 0) {
            return Err(Error::UnexpectedEnd);
        }
        let ghost bits = bits_of(self.data@);
        let ghost start = self.pos as int;
        let mut v: u64 = 0;
        let mut p: usize = self.pos;
        assert(bits.subrange(start, start) =~= Seq::<bool>::empty());
        proof {
            lemma2_to64();
        }
        while p < end
            invariant
                0 <= start <= p <= end,
                end - start <= 64,
                end <= 8 * self.data@.len(),
                bits == bits_of(self.data@),
                v == value(bits.subrange(start, p as int)),
                v < pow2((p - start) as nat),
            decreases end - p,
        {
            let byte = self.data[p / 8];
            let bit = (byte >> (7 - p % 8)) & 1;
            proof {
                let k = (7 - p % 8) as u8;
                assert((byte >> k) & 1u8 == 0u8 || (byte >> k) & 1u8 == 1u8) by (bit_vector);
                assert(bits.subrange(start, p + 1).drop_last() =~= bits.subrange(start, p as int));
                assert(bits[p as int] == bit_at(self.data@, p as int));
                lemma_pow2_unfold((p + 1 - start) as nat);
                lemma_pow2_monotone((p - start) as nat, 63);
                lemma2_to64_rest();
            }
            v = v * 2 + bit as u64;
            p = p + 1;
        }
        self.pos = end;
        Ok(v)
    }

    /// f(1) as a flag.
    pub fn flag(&mut self) -> (r: Result<bool, Error>)
        ensures
            reads(final(self)@, r, old(self)@.flag()),
            r is Err ==> final(self)@ == old(self)@,
    {
        Ok(self.f(1)? == 1)
    }

    /// uvlc(): unsigned variable-length code.
    pub fn uvlc(&mut self) -> (r: Result<u64, Error>)
        ensures
            reads(final(self)@, r, old(self)@.uvlc()),
    {
        let mut leading_zeros: usize = 0;
        let ghost start = self@;
        loop
            invariant_except_break
                leading_zeros <= 32,
                start.uvlc_zeros(0) == self@.uvlc_zeros(leading_zeros as nat),
            invariant
                start == old(self)@,
                self@.err is None,
            ensures
                leading_zeros < 32,
                start.uvlc_zeros(0) == (leading_zeros as nat, self@),
            decreases 32 - leading_zeros,
        {
            if leading_zeros >= 32 {
                return Err(Error::UvlcTooLarge);
            }
            if self.f(1)? == 1 {
                break;
            }
            leading_zeros = leading_zeros + 1;
        }
        let base: u64 = 1u64 << leading_zeros;
        proof {
            lemma_one_shl(leading_zeros as u64);
            lemma_pow2_monotone(leading_zeros as nat, 31);
            lemma2_to64();
            lemma_f_bound(self@, leading_zeros as nat);
        }
        let suffix = self.f(leading_zeros)?;
        Ok(base - 1 + suffix)
    }

    /// leb128(): little-endian base-128 unsigned integer (used for OBU sizes).
    /// Gives the value and how many bytes it took.
    pub fn leb128(data: &[u8]) -> (r: Result<(u64, usize), Error>)
        ensures
            r == leb128(data@),
            r matches Ok((v, n)) ==> v == leb128_value(data@.take(n as int)) && v < pow2(56)
                && 1 <= n <= 8 && n <= data@.len(),
    {
        let mut val: u64 = 0;
        let mut i: usize = 0;
        proof {
            lemma2_to64();
            lemma2_to64_rest();
        }
        while i < data.len()
            invariant
                i <= 8,
                i <= data@.len(),
                val < pow2((7 * i) as nat),
                val == leb128_value(data@.take(i as int)),
                leb128_end(data@, 0) == leb128_end(data@, i as nat),
            decreases data@.len() - i,
        {
            if i >= 8 {
                return Err(Error::Leb128TooLong);
            }
            let b = data[i];
            let low = (b & 0x7f) as u64;
            let shift: u64 = 7 * i as u64;
            proof {
                assert((b & 0x7f) == b % 128 && (b & 0x80 == 0 <==> b < 128)) by (bit_vector);
                lemma_leb128_value_push(data@.take(i as int), b);
                assert(data@.take(i + 1) =~= data@.take(i as int).push(b));
                lemma_pow2_adds((7 * i) as nat, 7);
                lemma2_to64();
                lemma2_to64_rest();
                lemma_pow2_monotone((7 * i + 7) as nat, 56);
                assert(low * pow2((7 * i) as nat) <= 127 * pow2((7 * i) as nat)) by (nonlinear_arith)
                    requires
                        low <= 127,
                ;
                assert(7 * (i + 1) == 7 * i + 7);
                vstd::bits::lemma_u64_shl_is_mul(low, shift);
            }
            val = val + (low << shift);
            if b & 0x80 == 0 {
                return Ok((val, i + 1));
            }
            i = i + 1;
        }
        Err(Error::Leb128Unterminated)
    }
}

impl Cur {
    /// Counts zero bits up to the next one bit, which is read too; `n` zeros
    /// were seen before.
    pub open spec fn uvlc_zeros(self, n: nat) -> (nat, Cur)
        decreases 32 - n,
    {
        if n >= 32 {
            (0, self.fail(Error::UvlcTooLarge))
        } else {
            let (one, c) = self.flag();
            if c.err is Some {
                (0, c)
            } else if one {
                (n, c)
            } else {
                c.uvlc_zeros(n + 1)
            }
        }
    }

    /// uvlc(): `z` zero bits, a one bit and a `z`-bit suffix spell
    /// `2^z - 1 + suffix`.
    pub open spec fn uvlc(self) -> (u64, Cur) {
        let (z, c) = self.uvlc_zeros(0);
        if c.err is Some {
            (0, c)
        } else {
            let (suffix, c) = c.f(z);
            ((pow2(z) - 1 + suffix) as u64, c)
        }
    }
}

// ---------- leb128 ----------

/// The number that the seven low bits of each byte spell, least significant
/// byte first.
pub open spec fn leb128_value(bytes: Seq<u8>) -> nat
    decreases bytes.len(),
{
    if bytes.len() == 0 {
        0
    } else {
        (bytes[0] % 128) as nat + 128 * leb128_value(bytes.skip(1))
    }
}

/// Where the leb128 integer at the front of `data` ends: after the first byte
/// whose high bit is clear, which is one of the first eight. No byte before
/// `data[i]` is that one.
pub open spec fn leb128_end(data: Seq<u8>, i: nat) -> Result<nat, Error>
    decreases data.len() - i,
{
    if i >= data.len() {
        Err(Error::Leb128Unterminated)
    } else if i >= 8 {
        Err(Error::Leb128TooLong)
    } else if data[i as int] < 128 {
        Ok(i + 1)
    } else {
        leb128_end(data, i + 1)
    }
}

/// The leb128 integer at the front of `data`, and its length.
pub open spec fn leb128(data: Seq<u8>) -> Result<(u64, usize), Error> {
    match leb128_end(data, 0) {
        Ok(n) => Ok((leb128_value(data.take(n as int)) as u64, n as usize)),
        Err(e) => Err(e),
    }
}

pub proof fn lemma_leb128_value_push(bytes: Seq<u8>, b: u8)
    ensures
        leb128_value(bytes.push(b)) == leb128_value(bytes) + (b % 128) * pow2(7 * bytes.len()),
    decreases bytes.len(),
{
    lemma2_to64();
    let all = bytes.push(b);
    let g = (b % 128) as nat;
    if bytes.len() == 0 {
        assert(all.skip(1) =~= Seq::empty());
        assert(leb128_value(Seq::<u8>::empty()) == 0);
        assert(7 * bytes.len() == 0);
        assert(g * 1 == g);
    } else {
        assert(all.skip(1) =~= bytes.skip(1).push(b));
        lemma_leb128_value_push(bytes.skip(1), b);
        let m = (7 * (bytes.len() - 1)) as nat;
        lemma_pow2_adds(7, m);
        assert(128 * (g * pow2(m)) == g * (128 * pow2(m))) by (nonlinear_arith);
    }
}

/// The leb128 form of `v`.
pub open spec fn leb128_bytes(v: nat) -> Seq<u8>
    decreases v,
{
    if v < 128 {
        seq![v as u8]
    } else {
        seq![(v % 128 + 128) as u8] + leb128_bytes(v / 128)
    }
}

/// leb128(): little-endian base-128 unsigned integer (used for OBU sizes).
pub fn leb128_encode(v: u64) -> (r: Vec<u8>)
    ensures
        r@ == leb128_bytes(v as nat),
{
    let mut out: Vec<u8> = Vec::new();
    let mut v: u64 = v;
    let ghost all = leb128_bytes(v as nat);
    while v >= 128
        invariant
            out@ + leb128_bytes(v as nat) == all,
        decreases v,
    {
        let b = (v % 128) as u8 | 0x80;
        proof {
            let low = (v % 128) as u8;
            assert(low | 0x80 == low + 128) by (bit_vector)
                requires
                    low < 128,
            ;
            assert(out@.push(b) + leb128_bytes((v / 128) as nat) =~= out@ + leb128_bytes(v as nat));
        }
        out.push(b);
        v = v / 128;
    }
    assert(out@.push(v as u8) =~= all);
    out.push(v as u8);
    out
}

pub proof fn lemma_leb128_bytes_len(v: nat, k: nat)
    requires
        v < pow2(7 * k),
        k > 0,
    ensures
        1 <= leb128_bytes(v).len() <= k,
    decreases k,
{
    lemma2_to64();
    if v >= 128 {
        if k == 1 {
            assert(pow2(7) == 128);
        } else {
            let m = (k - 1) as nat;
            lemma_pow2_adds(7, 7 * m);
            assert(7 + 7 * m == 7 * k);
            assert(v / 128 < pow2(7 * m));
            lemma_leb128_bytes_len(v / 128, m);
        }
    }
}

pub proof fn lemma_leb128_value_bytes(v: nat)
    ensures
        leb128_value(leb128_bytes(v)) == v,
    decreases v,
{
    let b = leb128_bytes(v);
    if v < 128 {
        assert(b.skip(1) =~= Seq::<u8>::empty());
        assert(leb128_value(Seq::<u8>::empty()) == 0);
    } else {
        assert(b.skip(1) =~= leb128_bytes(v / 128));
        lemma_leb128_value_bytes(v / 128);
    }
}

proof fn lemma_leb128_end_bytes(pre: Seq<u8>, v: nat, tail: Seq<u8>)
    requires
        pre.len() + leb128_bytes(v).len() <= 8,
    ensures
        leb128_end(pre + leb128_bytes(v) + tail, pre.len()) == Ok::<nat, Error>(
            pre.len() + leb128_bytes(v).len(),
        ),
    decreases v,
{
    let all = pre + leb128_bytes(v) + tail;
    if v >= 128 {
        let b = (v % 128 + 128) as u8;
        assert(all[pre.len() as int] == b);
        assert(leb128_bytes(v / 128).len() >= 1) by {
            reveal_with_fuel(leb128_bytes, 1);
        }
        lemma_leb128_end_bytes(pre.push(b), v / 128, tail);
        assert(pre.push(b) + leb128_bytes(v / 128) + tail =~= all);
    } else {
        assert(all[pre.len() as int] == v as u8);
    }
}

/// Decoding gives back what was encoded, whatever follows it, for every value
/// that fits the eight bytes an OBU size may take.
pub proof fn leb128_round_trip(v: u64, tail: Seq<u8>)
    requires
        v < pow2(56),
    ensures
        leb128(leb128_bytes(v as nat) + tail) == Ok::<(u64, usize), Error>(
            (v, leb128_bytes(v as nat).len() as usize),
        ),
        leb128_bytes(v as nat).len() <= 8,
{
    let b = leb128_bytes(v as nat);
    lemma_leb128_bytes_len(v as nat, 8);
    lemma_leb128_value_bytes(v as nat);
    lemma_leb128_end_bytes(Seq::empty(), v as nat, tail);
    assert(Seq::<u8>::empty() + b + tail =~= b + tail);
    assert((b + tail).take(b.len() as int) =~= b);
}

proof fn lemma_leb128_goes_on(v: nat, k: nat)
    requires
        v >= pow2(7 * k),
    ensures
        leb128_bytes(v).len() > k,
        forall|i: int| 0 <= i < k ==> #[trigger] leb128_bytes(v)[i] >= 128,
    decreases k,
{
    if k > 0 {
        let m = (k - 1) as nat;
        lemma_pow2_adds(7 * m, 7);
        lemma2_to64();
        assert(7 * k == 7 * m + 7);
        let p = pow2(7 * m);
        lemma_pow2_pos(7 * m);
        assert(v / 128 >= p) by (nonlinear_arith)
            requires
                v >= p * 128,
        ;
        lemma_leb128_goes_on(v / 128, m);
        let rest = leb128_bytes(v / 128);
        assert forall|i: int| 0 <= i < k implies #[trigger] leb128_bytes(v)[i] >= 128 by {
            if i > 0 {
                assert(leb128_bytes(v)[i] == rest[i - 1]);
            }
        }
    }
}

proof fn lemma_leb128_end_too_long(data: Seq<u8>, i: nat)
    requires
        i <= 8,
        data.len() > 8,
        forall|k: int| 0 <= k < 8 ==> #[trigger] data[k] >= 128,
    ensures
        leb128_end(data, i) == Err::<nat, Error>(Error::Leb128TooLong),
    decreases 8 - i,
{
    if i < 8 {
        assert(data[i as int] >= 128);
        lemma_leb128_end_too_long(data, i + 1);
    }
}

/// A value that takes more than eight bytes cannot be decoded, whatever
/// follows it.
pub proof fn oversized_leb128_is_too_long(v: nat, tail: Seq<u8>)
    requires
        v >= pow2(56),
    ensures
        leb128(leb128_bytes(v) + tail) == Err::<(u64, usize), Error>(Error::Leb128TooLong),
{
    lemma_leb128_goes_on(v, 8);
    let data = leb128_bytes(v) + tail;
    assert forall|k: int| 0 <= k < 8 implies #[trigger] data[k] >= 128 by {
        assert(leb128_bytes(v)[k] >= 128);
    }
    lemma_leb128_end_too_long(data, 0);
}

// ---------- writing ----------

/// `n` zero bits.
pub open spec fn zeros(n: nat) -> Seq<bool> {
    Seq::new(n, |i: int| false)
}

/// `bits` with zero bits up to the next byte boundary.
pub open spec fn aligned(bits: Seq<bool>) -> Seq<bool> {
    bits + zeros(((8 - bits.len() % 8) % 8) as nat)
}

/// The byte string whose bits are `aligned(bits)`.
pub open spec fn pack(bits: Seq<bool>) -> Seq<u8> {
    Seq::new(
        aligned(bits).len() / 8,
        |i: int| value(aligned(bits).subrange(8 * i, 8 * i + 8)) as u8,
    )
}

/// AV1 trailing_bits: a one bit, then zero bits up to a byte boundary.
pub open spec fn with_trailing_bits(bits: Seq<bool>) -> Seq<bool> {
    aligned(bits.push(true))
}

/// The position of the highest one bit of `n`.
pub open spec fn floor_log2(n: nat) -> nat
    decreases n,
{
    if n <= 1 {
        0
    } else {
        1 + floor_log2(n / 2)
    }
}

/// uvlc(): as many zero bits as the suffix is long, a one bit, the suffix.
pub open spec fn uvlc_bits(v: nat) -> Seq<bool> {
    let z = floor_log2(v + 1);
    zeros(z).push(true) + be_bits(z, v + 1)
}

pub struct BitWriter {
    bytes: Vec<u8>,
    /// Bits in use in the last byte; 0 when it is full.
    bit_pos: usize,
}

impl View for BitWriter {
    type V = Seq<bool>;

    /// The bits written so far.
    closed spec fn view(&self) -> Seq<bool> {
        bits_of(self.bytes@).take(self.bit_len())
    }
}

impl BitWriter {
    spec fn bit_len(&self) -> int {
        if self.bit_pos == 0 {
            8 * self.bytes@.len() as int
        } else {
            8 * (self.bytes@.len() - 1) + self.bit_pos
        }
    }

    /// The bits of the last byte that are not in use are zero.
    pub closed spec fn wf(&self) -> bool {
        &&& self.bit_pos < 8
        &&& self.bit_pos > 0 ==> self.bytes@.len() > 0
        &&& forall|i: int|
            self.bit_len() <= i < 8 * self.bytes@.len() ==> !(#[trigger] bit_at(self.bytes@, i))
    }

    pub fn new() -> (w: Self)
        ensures
            w.wf(),
            w@ == Seq::<bool>::empty(),
    {
        let w = BitWriter { bytes: Vec::new(), bit_pos: 0 };
        assert(w@ =~= Seq::empty());
        w
    }

    /// f(1) as a flag.
    pub fn flag(&mut self, bit: bool)
        requires
            old(self).wf(),
        ensures
            final(self).wf(),
            final(self)@ == old(self)@.push(bit),
    {
        let ghost before = bits_of(self.bytes@);
        let ghost n = self.bit_len();
        assert forall|j: u8| j < 8 implies (0u8 >> j) & 1u8 == 0u8 by {
            assert((0u8 >> j) & 1u8 == 0u8) by (bit_vector);
        }
        if self.bit_pos == 0 {
            self.bytes.push(0);
        }
        let last = self.bytes.len() - 1;
        let ghost mid = self.bytes@;
        assert(forall|i: int| 0 <= i < n ==> bit_at(mid, i) == before[i]);
        assert(forall|i: int| n <= i < 8 * mid.len() ==> !bit_at(mid, i));
        if bit {
            let b = self.bytes[last];
            let k: u8 = 7 - self.bit_pos as u8;
            self.bytes[last] = b | (1u8 << k);
            proof {
                assert forall|j: u8| j < 8 implies #[trigger] ((b | (1u8 << k)) >> j) & 1u8 == (if j
                    == k {
                    1u8
                } else {
                    (b >> j) & 1u8
                }) by {
                    assert(((b | (1u8 << k)) >> j) & 1u8 == (if j == k {
                        1u8
                    } else {
                        (b >> j) & 1u8
                    })) by (bit_vector)
                        requires
                            j < 8,
                            k < 8,
                    ;
                }
            }
        }
        self.bit_pos = (self.bit_pos + 1) % 8;
        proof {
            assert forall|i: int| 0 <= i < 8 * mid.len() implies bit_at(self.bytes@, i) == (if i
                == n {
                bit
            } else {
                bit_at(mid, i)
            }) by {
                if i / 8 == last {
                    assert(((7 - i % 8) as u8) < 8);
                }
            }
            assert(self.bit_len() == n + 1);
            assert(self@ =~= old(self)@.push(bit));
        }
    }

    /// Append the low `n` bits of `v`, MSB first.
    pub fn f(&mut self, n: usize, v: u64)
        requires
            old(self).wf(),
            n <= 64,
        ensures
            final(self).wf(),
            final(self)@ == old(self)@ + be_bits(n as nat, v as nat),
    {
        let ghost all = be_bits(n as nat, v as nat);
        let mut i: usize = n;
        proof {
            lemma_be_bits_len(n as nat, v as nat);
            assert(self@ + all.take(0) =~= self@);
        }
        while i > 0
            invariant
                self.wf(),
                i <= n <= 64,
                all == be_bits(n as nat, v as nat),
                all.len() == n,
                self@ == old(self)@ + all.take(n - i),
            decreases i,
        {
            let bit = (v >> (i - 1)) & 1 == 1;
            proof {
                lemma_be_bits_at(n as nat, v as nat, n - i);
                let k = (i - 1) as u64;
                vstd::bits::lemma_u64_shr_is_div(v, k);
                let q = v >> k;
                assert(q & 1 == q % 2) by (bit_vector);
                assert(all.take(n - i + 1) =~= all.take(n - i).push(bit));
            }
            self.flag(bit);
            i = i - 1;
            assert(self@ =~= old(self)@ + all.take(n - i));
        }
        assert(all.take(n as int) =~= all);
    }

    /// uvlc(): unsigned variable-length code — leading_zeros 0-bits, a 1,
    /// then a leading_zeros-bit suffix.
    pub fn uvlc(&mut self, v: u64)
        requires
            old(self).wf(),
            v < u64::MAX,
        ensures
            final(self).wf(),
            final(self)@ == old(self)@ + uvlc_bits(v as nat),
    {
        proof {
            lemma_floor_log2_leading_zeros((v + 1) as u64);
            vstd::std_specs::bits::axiom_u64_leading_zeros((v + 1) as u64);
        }
        let leading_zeros: usize = 63 - (v + 1).leading_zeros() as usize;
        let mut i: usize = 0;
        assert(self@ + zeros(0) =~= self@);
        while i < leading_zeros
            invariant
                self.wf(),
                i <= leading_zeros,
                self@ == old(self)@ + zeros(i as nat),
            decreases leading_zeros - i,
        {
            self.flag(false);
            i = i + 1;
            assert(self@ =~= old(self)@ + zeros(i as nat));
        }
        self.flag(true);
        self.f(leading_zeros, v + 1);
        assert(self@ =~= old(self)@ + uvlc_bits(v as nat));
    }

    /// Zero bits up to a byte boundary.
    pub fn byte_alignment(&mut self)
        requires
            old(self).wf(),
        ensures
            final(self).wf(),
            final(self)@ == aligned(old(self)@),
    {
        let ghost pad = (8 - self@.len() % 8) % 8;
        self.bit_pos = 0;
        assert(self@ =~= aligned(old(self)@));
    }

    /// AV1 trailing_bits: a single 1 bit followed by zero padding to a byte boundary.
    pub fn trailing_bits(&mut self)
        requires
            old(self).wf(),
        ensures
            final(self).wf(),
            final(self)@ == with_trailing_bits(old(self)@),
    {
        self.flag(true);
        self.byte_alignment();
    }

    pub fn into_bytes(self) -> (r: Vec<u8>)
        requires
            self.wf(),
        ensures
            r@ == pack(self@),
    {
        proof {
            assert(bits_of(self.bytes@) =~= aligned(self@));
            lemma_pack_bits_of(self.bytes@);
            assert(aligned(aligned(self@)) =~= aligned(self@));
        }
        self.bytes
    }
}

pub proof fn lemma_be_bits_len(n: nat, v: nat)
    ensures
        be_bits(n, v).len() == n,
    decreases n,
{
    if n > 0 {
        lemma_be_bits_len((n - 1) as nat, v / 2);
    }
}

/// The bits of `be_bits` by position.
pub proof fn lemma_be_bits_at(n: nat, v: nat, i: int)
    requires
        0 <= i < n,
    ensures
        be_bits(n, v)[i] == ((v / pow2((n - 1 - i) as nat)) % 2 == 1),
    decreases n,
{
    lemma_be_bits_len(n, v);
    lemma_be_bits_len((n - 1) as nat, v / 2);
    lemma2_to64();
    if i < n - 1 {
        lemma_be_bits_at((n - 1) as nat, v / 2, i);
        let k = (n - 2 - i) as nat;
        lemma_pow2_unfold(k + 1);
        lemma_pow2_pos(k);
        vstd::arithmetic::div_mod::lemma_div_denominator(v as int, 2, pow2(k) as int);
    } else {
        assert(v / pow2(0) == v);
    }
}

/// Reading the low `n` bits of `v` back gives `v` modulo `2^n`.
pub proof fn lemma_value_be_bits(n: nat, v: nat)
    ensures
        value(be_bits(n, v)) == v % pow2(n),
    decreases n,
{
    lemma2_to64();
    if n > 0 {
        lemma_value_be_bits((n - 1) as nat, v / 2);
        assert(be_bits(n, v).drop_last() =~= be_bits((n - 1) as nat, v / 2));
        lemma_pow2_unfold(n);
        lemma_pow2_pos((n - 1) as nat);
        vstd::arithmetic::div_mod::lemma_mod_breakdown(v as int, 2, pow2((n - 1) as nat) as int);
    }
}

/// Two bit strings of one length that spell the same number are the same.
pub proof fn lemma_value_injective(a: Seq<bool>, b: Seq<bool>)
    requires
        a.len() == b.len(),
        value(a) == value(b),
    ensures
        a == b,
    decreases a.len(),
{
    if a.len() > 0 {
        lemma_value_injective(a.drop_last(), b.drop_last());
        assert(a =~= a.drop_last().push(a.last()));
        assert(b =~= b.drop_last().push(b.last()));
    } else {
        assert(a =~= b);
    }
}

/// A byte is the number that its eight bits spell.
proof fn lemma_byte_value(data: Seq<u8>, i: int)
    requires
        0 <= i < data.len(),
    ensures
        value(bits_of(data).subrange(8 * i, 8 * i + 8)) == data[i],
{
    let s = bits_of(data).subrange(8 * i, 8 * i + 8);
    let b = data[i];
    reveal_with_fuel(value, 9);
    assert(forall|j: int| 0 <= j < 8 ==> s[j] == ((b >> ((7 - j) as u8)) & 1u8 == 1u8));
    assert(s.drop_last().drop_last().drop_last().drop_last().drop_last().drop_last().drop_last().drop_last()
        =~= Seq::<bool>::empty());
    assert({
        &&& (b >> 0) & 1u8 <= 1
        &&& (b >> 1) & 1u8 <= 1
        &&& (b >> 2) & 1u8 <= 1
        &&& (b >> 3) & 1u8 <= 1
        &&& (b >> 4) & 1u8 <= 1
        &&& (b >> 5) & 1u8 <= 1
        &&& (b >> 6) & 1u8 <= 1
        &&& (b >> 7) & 1u8 <= 1
        &&& b == ((b >> 0) & 1u8) + 2 * ((b >> 1) & 1u8) + 4 * ((b >> 2) & 1u8) + 8 * ((b >> 3)
            & 1u8) + 16 * ((b >> 4) & 1u8) + 32 * ((b >> 5) & 1u8) + 64 * ((b >> 6) & 1u8) + 128
            * ((b >> 7) & 1u8)
    }) by (bit_vector);
}

/// Packing the bits of a byte string gives it back.
pub proof fn lemma_pack_bits_of(data: Seq<u8>)
    ensures
        pack(bits_of(data)) == data,
{
    let bits = bits_of(data);
    assert(aligned(bits) =~= bits);
    assert forall|i: int| 0 <= i < data.len() implies pack(bits)[i] == data[i] by {
        lemma_byte_value(data, i);
    }
    assert(pack(bits) =~= data);
}

/// The bits of a packed bit string are that string, zero-padded.
pub proof fn lemma_bits_of_pack(bits: Seq<bool>)
    ensures
        bits_of(pack(bits)) == aligned(bits),
{
    let a = aligned(bits);
    let p = pack(bits);
    assert forall|i: int| 0 <= i < p.len() implies bits_of(p).subrange(8 * i, 8 * i + 8)
        == #[trigger] a.subrange(8 * i, 8 * i + 8) by {
        lemma_byte_value(p, i);
        lemma_value_bound(a.subrange(8 * i, 8 * i + 8));
        lemma2_to64();
        lemma_value_injective(
            bits_of(p).subrange(8 * i, 8 * i + 8),
            a.subrange(8 * i, 8 * i + 8),
        );
    }
    assert forall|j: int| 0 <= j < a.len() implies bits_of(p)[j] == a[j] by {
        let i = j / 8;
        assert(bits_of(p).subrange(8 * i, 8 * i + 8)[j % 8] == a.subrange(8 * i, 8 * i + 8)[j % 8]);
    }
    assert(bits_of(p) =~= a);
}

pub proof fn lemma_floor_log2_leading_zeros(n: u64)
    requires
        n > 0,
    ensures
        floor_log2(n as nat) == 63 - vstd::std_specs::bits::u64_leading_zeros(n),
    decreases n,
{
    reveal(vstd::std_specs::bits::u64_leading_zeros);
    if n > 1 {
        lemma_floor_log2_leading_zeros(n / 2);
    } else {
        assert(vstd::std_specs::bits::u64_leading_zeros(0) == 64);
    }
}

pub proof fn lemma_floor_log2(n: nat)
    requires
        n > 0,
    ensures
        pow2(floor_log2(n)) <= n < pow2(floor_log2(n) + 1),
    decreases n,
{
    lemma2_to64();
    if n > 1 {
        lemma_floor_log2(n / 2);
        lemma_pow2_unfold(floor_log2(n));
        lemma_pow2_unfold(floor_log2(n) + 1);
    }
}

// ---------- reading back what was written ----------

/// Whether `t` starts with `a`.
pub open spec fn starts(t: Seq<bool>, a: Seq<bool>) -> bool {
    a.len() <= t.len() && t.take(a.len() as int) == a
}

pub broadcast proof fn lemma_starts_append(t: Seq<bool>, a: Seq<bool>, b: Seq<bool>)
    requires
        #[trigger] starts(t, a + b),
    ensures
        starts(t, a),
{
    assert(t.take(a.len() as int) =~= t.take((a + b).len() as int).take(a.len() as int));
    assert((a + b).take(a.len() as int) =~= a);
}

pub broadcast proof fn lemma_starts_push(t: Seq<bool>, a: Seq<bool>, b: bool)
    requires
        #[trigger] starts(t, a.push(b)),
    ensures
        starts(t, a),
{
    assert(a.push(b) =~= a + seq![b]);
    lemma_starts_append(t, a, seq![b]);
}

pub broadcast group group_starts {
    lemma_starts_append,
    lemma_starts_push,
}

/// What f(n) read is what writing the number appends.
pub broadcast proof fn f_consumes(c: Cur, n: nat)
    requires
        c.err is None,
        c.f(n).1.err is None,
    ensures
        (#[trigger] c.f(n)).0 < pow2(n),
        c.f(n).1 == (Cur { pos: c.pos + n, ..c }),
        c.f(n).1.seen() == c.seen() + be_bits(n, c.f(n).0 as nat),
        c.pos + n <= c.bits.len(),
{
    let s = c.bits.subrange(c.pos as int, (c.pos + n) as int);
    lemma_value_bound(s);
    lemma_pow2_monotone(n, 64);
    lemma2_to64_rest();
    lemma_value_be_bits(n, value(s));
    lemma_be_bits_len(n, value(s));
    vstd::arithmetic::div_mod::lemma_small_mod(value(s), pow2(n));
    lemma_value_injective(s, be_bits(n, value(s)));
    assert(c.f(n).1.seen() =~= c.seen() + s);
}

pub broadcast proof fn flag_consumes(c: Cur)
    requires
        c.err is None,
        c.flag().1.err is None,
    ensures
        (#[trigger] c.flag()).1 == (Cur { pos: c.pos + 1, ..c }),
        c.flag().1.seen() == c.seen().push(c.flag().0),
        c.pos + 1 <= c.bits.len(),
{
    f_consumes(c, 1);
    lemma2_to64();
    lemma_one_bit(c.flag().0);
    assert(c.seen() + seq![c.flag().0] =~= c.seen().push(c.flag().0));
}

proof fn lemma_one_bit(b: bool)
    ensures
        be_bits(1, if b { 1 } else { 0 }) == seq![b],
{
    reveal_with_fuel(be_bits, 2);
    assert(be_bits(1, if b { 1 } else { 0 }) =~= seq![b]);
}

/// f(n) gives back the number that was written with `n` bits.
pub proof fn f_reads_back(c: Cur, n: nat, v: u64)
    requires
        c.err is None,
        n <= 64,
        v < pow2(n),
        starts(c.bits, c.seen() + be_bits(n, v as nat)),
        c.pos <= c.bits.len() <= usize::MAX,
    ensures
        c.f(n) == (v, Cur { pos: c.pos + n, ..c }),
        c.f(n).1.seen() == c.seen() + be_bits(n, v as nat),
        c.pos + n <= c.bits.len(),
{
    let s = c.bits.subrange(c.pos as int, (c.pos + n) as int);
    lemma_be_bits_len(n, v as nat);
    lemma_value_be_bits(n, v as nat);
    vstd::arithmetic::div_mod::lemma_small_mod(v as nat, pow2(n));
    assert((c.seen() + be_bits(n, v as nat)).skip(c.pos as int) =~= be_bits(n, v as nat));
    assert(s =~= c.bits.take((c.pos + n) as int).skip(c.pos as int));
}

/// A one-bit flag reads back.
pub proof fn flag_reads_back(c: Cur, b: bool)
    requires
        c.err is None,
        starts(c.bits, c.seen().push(b)),
        c.pos <= c.bits.len() <= usize::MAX,
    ensures
        c.flag() == (b, Cur { pos: c.pos + 1, ..c }),
        c.flag().1.seen() == c.seen().push(b),
        c.pos + 1 <= c.bits.len(),
{
    lemma2_to64();
    let v: u64 = if b { 1 } else { 0 };
    lemma_one_bit(b);
    assert(c.seen() + seq![b] =~= c.seen().push(b));
    f_reads_back(c, 1, v);
}

proof fn lemma_uvlc_zeros_reads_back(c: Cur, seen: nat, z: nat)
    requires
        c.err is None,
        seen + z < 32,
        starts(c.bits, c.seen() + zeros(z).push(true)),
        c.pos <= c.bits.len() <= usize::MAX,
    ensures
        c.uvlc_zeros(seen) == (seen + z, Cur { pos: c.pos + z + 1, ..c }),
    decreases z,
{
    let all = c.seen() + zeros(z).push(true);
    if z == 0 {
        assert(all =~= c.seen().push(true));
        flag_reads_back(c, true);
    } else {
        let rest = zeros((z - 1) as nat).push(true);
        assert(all =~= c.seen().push(false) + rest);
        lemma_starts_append(c.bits, c.seen().push(false), rest);
        flag_reads_back(c, false);
        lemma_uvlc_zeros_reads_back(c.flag().1, seen + 1, (z - 1) as nat);
    }
}

/// uvlc() gives back the number that was written, for every number that the
/// reader accepts: those below `2^32 - 1`.
pub proof fn uvlc_reads_back(c: Cur, v: u64)
    requires
        c.err is None,
        v < u32::MAX,
        starts(c.bits, c.seen() + uvlc_bits(v as nat)),
        c.pos <= c.bits.len() <= usize::MAX,
    ensures
        c.uvlc() == (v, Cur { pos: c.pos + uvlc_bits(v as nat).len(), ..c }),
        c.uvlc().1.seen() == c.seen() + uvlc_bits(v as nat),
        c.pos + uvlc_bits(v as nat).len() <= c.bits.len(),
{
    let n = (v + 1) as nat;
    let z = floor_log2(n);
    lemma_floor_log2(n);
    lemma2_to64();
    if z >= 32 {
        lemma_pow2_monotone(32, z);
    }
    let head = zeros(z).push(true);
    lemma_be_bits_len(z, n);
    assert(c.seen() + uvlc_bits(v as nat) =~= c.seen() + head + be_bits(z, n));
    lemma_starts_append(c.bits, c.seen() + head, be_bits(z, n));
    lemma_uvlc_zeros_reads_back(c, 0, z);
    let c1 = c.uvlc_zeros(0).1;
    assert(c1.seen() =~= c.seen() + head);
    lemma_pow2_unfold(z + 1);
    let low = (n - pow2(z)) as u64;
    assert(n % pow2(z) == low) by {
        vstd::arithmetic::div_mod::lemma_fundamental_div_mod_converse(
            n as int,
            pow2(z) as int,
            1,
            low as int,
        );
    }
    lemma_be_bits_mod(z, n, low as nat);
    f_reads_back(c1, z, low);
}

proof fn lemma_uvlc_zeros_consumes(c: Cur, seen: nat)
    requires
        c.err is None,
        c.uvlc_zeros(seen).1.err is None,
        c.pos <= c.bits.len(),
    ensures
        seen <= c.uvlc_zeros(seen).0 < 32,
        ({
            let z = (c.uvlc_zeros(seen).0 - seen) as nat;
            &&& c.uvlc_zeros(seen).1 == (Cur { pos: c.pos + z + 1, ..c })
            &&& c.uvlc_zeros(seen).1.seen() == c.seen() + zeros(z).push(true)
            &&& c.pos + z + 1 <= c.bits.len()
        }),
    decreases 32 - seen,
{
    let (one, c1) = c.flag();
    if c1.err is None {
        flag_consumes(c);
        if one {
            assert(c.seen() + zeros(0).push(true) =~= c.seen().push(true));
        } else {
            lemma_uvlc_zeros_consumes(c1, seen + 1);
            let z = (c.uvlc_zeros(seen).0 - seen) as nat;
            assert(c.seen() + zeros(z).push(true) =~= c.seen().push(false) + zeros(
                (z - 1) as nat,
            ).push(true));
        }
    }
}

/// What uvlc() read is what writing the number appends.
pub broadcast proof fn uvlc_consumes(c: Cur)
    requires
        c.err is None,
        c.uvlc().1.err is None,
        c.pos <= c.bits.len(),
    ensures
        (#[trigger] c.uvlc()).0 < u32::MAX,
        c.uvlc().1.bits == c.bits,
        c.uvlc().1.err is None,
        c.uvlc().1.pos <= c.bits.len(),
        c.uvlc().1.seen() == c.seen() + uvlc_bits(c.uvlc().0 as nat),
{
    lemma_uvlc_zeros_consumes(c, 0);
    let (z, c1) = c.uvlc_zeros(0);
    f_consumes(c1, z);
    let suffix = c1.f(z).0;
    lemma2_to64();
    lemma_pow2_monotone(z, 31);
    lemma_pow2_unfold(z + 1);
    let v = c.uvlc().0;
    let n = (v + 1) as nat;
    assert(floor_log2(n) == z) by {
        lemma_floor_log2_unique(n, z);
    }
    assert(n % pow2(z) == suffix) by {
        vstd::arithmetic::div_mod::lemma_fundamental_div_mod_converse(
            n as int,
            pow2(z) as int,
            1,
            suffix as int,
        );
    }
    lemma_be_bits_mod(z, n, suffix as nat);
    assert(c.seen() + uvlc_bits(v as nat) =~= c.seen() + zeros(z).push(true) + be_bits(z, n));
}

proof fn lemma_floor_log2_unique(n: nat, z: nat)
    requires
        pow2(z) <= n < pow2(z + 1),
    ensures
        floor_log2(n) == z,
    decreases z,
{
    lemma2_to64();
    lemma_pow2_pos(z);
    if z > 0 {
        lemma_pow2_unfold(z);
        lemma_pow2_unfold(z + 1);
        lemma_pow2_pos((z - 1) as nat);
        lemma_floor_log2_unique(n / 2, (z - 1) as nat);
    }
}

/// Bits that were read are the bits that writing the same fields appends.
pub broadcast group group_consumes {
    f_consumes,
    flag_consumes,
    uvlc_consumes,
}

/// `be_bits` depends on the value modulo `2^n` only.
proof fn lemma_be_bits_mod(n: nat, v: nat, w: nat)
    requires
        w == v % pow2(n),
    ensures
        be_bits(n, v) == be_bits(n, w),
{
    lemma_value_be_bits(n, v);
    lemma_value_be_bits(n, w);
    lemma_be_bits_len(n, v);
    lemma_be_bits_len(n, w);
    lemma_pow2_pos(n);
    vstd::arithmetic::div_mod::lemma_mod_twice(v as int, pow2(n) as int);
    lemma_value_injective(be_bits(n, v), be_bits(n, w));
}

// ---------- arithmetic of powers of two ----------

pub proof fn lemma_pow2_monotone(a: nat, b: nat)
    requires
        a <= b,
    ensures
        pow2(a) <= pow2(b),
{
    if a < b {
        lemma_pow2_strictly_increases(a, b);
    }
}

pub proof fn lemma_one_shl(k: u64)
    requires
        k < 64,
    ensures
        1u64 << k == pow2(k as nat),
{
    broadcast use vstd::bits::lemma_u64_pow2_no_overflow;
    vstd::bits::lemma_u64_shl_is_mul(1, k);
}

/// A field of `n` bits is below `2^n`.
pub proof fn lemma_f_bound(c: Cur, n: nat)
    ensures
        c.f(n).0 < pow2(n),
{
    lemma_pow2_pos(n);
    if c.err is None && n <= 64 && c.holds(n) {
        lemma_value_bound(c.bits.subrange(c.pos as int, (c.pos + n) as int));
        lemma_pow2_monotone(n, 64);
        lemma2_to64_rest();
    }
}

} // verus!
