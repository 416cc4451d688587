//! Base-128 varints and little-endian fixed-width integers as the protobuf
//! wire format encodes them.
use vstd::prelude::*;
use vstd::arithmetic::power2::*;
use bytes::Buf;

verus! {

/// The seven payload bits of a varint byte.
pub open spec fn low7(b: u8) -> nat {
    (b % 128) as nat
}

/// A varint byte with its high bit set is followed by another byte of the same varint.
pub open spec fn continues(b: u8) -> bool {
    b >= 128
}

/// Length of the varint at the front of `s`, when a byte without the
/// continuation bit occurs within the first `limit` bytes.
pub open spec fn varint_span(s: Seq<u8>, limit: nat) -> Option<nat>
    decreases limit,
{
    if limit == 0 || s.len() == 0 {
        None
    } else if !continues(s[0]) {
        Some(1)
    } else {
        match varint_span(s.drop_first(), (limit - 1) as nat) {
            Some(n) => Some(n + 1),
            None => None,
        }
    }
}

/// The number that the base-128 digits of `s` denote, least significant first.
pub open spec fn base128_value(s: Seq<u8>) -> nat
    decreases s.len(),
{
    if s.len() == 0 {
        0
    } else {
        base128_value(s.drop_last()) + low7(s.last()) * pow2((7 * (s.len() - 1)) as nat)
    }
}

/// Largest number of bytes a varint may take.
pub open spec fn max_varint_len() -> nat {
    10
}

/// The varint at the front of `s`: its value reduced to 64 bits and the number of
/// bytes it occupies. `None` when no terminating byte occurs within ten bytes.
pub open spec fn varint_decoding(s: Seq<u8>) -> Option<(u64, nat)> {
    match varint_span(s, max_varint_len()) {
        Some(n) => Some(((base128_value(s.take(n as int)) % 0x1_0000_0000_0000_0000) as u64, n)),
        None => None,
    }
}

/// The unsigned number whose little-endian bytes are `s`.
pub open spec fn little_endian(s: Seq<u8>) -> nat
    decreases s.len(),
{
    if s.len() == 0 {
        0
    } else {
        (s[0] + 256 * little_endian(s.drop_first())) as nat
    }
}

pub proof fn lemma_varint_span_bounds(s: Seq<u8>, limit: nat)
    ensures
        varint_span(s, limit) matches Some(n) ==> 1 <= n <= limit && n <= s.len(),
    decreases limit,
{
    if limit > 0 && s.len() > 0 && continues(s[0]) {
        lemma_varint_span_bounds(s.drop_first(), (limit - 1) as nat);
    }
}

/// A varint that ends within `a` reads the same when more bytes follow `a`.
pub proof fn lemma_varint_span_prefix(a: Seq<u8>, b: Seq<u8>, limit: nat)
    ensures
        varint_span(a, limit) is Some ==> varint_span(a + b, limit) == varint_span(a, limit),
    decreases limit,
{
    if limit > 0 && a.len() > 0 {
        assert((a + b)[0] == a[0]);
        if continues(a[0]) {
            assert((a + b).drop_first() =~= a.drop_first() + b);
            lemma_varint_span_prefix(a.drop_first(), b, (limit - 1) as nat);
        }
    }
}

/// A varint that decodes from `a` decodes to the same value and length from `a + b`.
pub proof fn lemma_varint_decoding_prefix(a: Seq<u8>, b: Seq<u8>)
    ensures
        varint_decoding(a) is Some ==> varint_decoding(a + b) == varint_decoding(a),
{
    lemma_varint_span_prefix(a, b, 10);
    lemma_varint_span_bounds(a, 10);
    if let Some(n) = varint_span(a, 10) {
        assert((a + b).take(n as int) =~= a.take(n as int));
    }
}

/// When every byte before position `i` continues the varint, its span is `i`
/// more than the span of what follows, with the limit reduced by `i`.
proof fn lemma_varint_span_skip(s: Seq<u8>, i: nat, limit: nat)
    requires
        i <= s.len(),
        i <= limit,
        forall|j: int| 0 <= j < i ==> continues(#[trigger] s[j]),
    ensures
        varint_span(s, limit) == match varint_span(s.skip(i as int), (limit - i) as nat) {
            Some(n) => Some(n + i),
            None => None::<nat>,
        },
    decreases i,
{
    if i == 0 {
        assert(s.skip(0) =~= s);
        match varint_span(s, limit) {
            Some(n) => {},
            None => {},
        }
    } else {
        let t = s.drop_first();
        assert(continues(s[0]));
        assert forall|j: int| 0 <= j < (i - 1) as nat implies continues(#[trigger] t[j]) by {
            assert(t[j] == s[j + 1]);
        }
        lemma_varint_span_skip(t, (i - 1) as nat, (limit - 1) as nat);
        assert(t.skip((i - 1) as int) =~= s.skip(i as int));
    }
}

/// The base-128 value of `i` digits is below `2^(7i)`.
proof fn lemma_base128_bound(s: Seq<u8>)
    ensures
        base128_value(s) < pow2((7 * s.len()) as nat),
    decreases s.len(),
{
    broadcast use lemma_pow2_adds;
    lemma_pow2_pos((7 * s.len()) as nat);
    if s.len() > 0 {
        let k = (s.len() - 1) as nat;
        lemma_base128_bound(s.drop_last());
        let p = pow2((7 * k) as nat);
        lemma_pow2_adds((7 * k) as nat, 7);
        assert(pow2(7) == 128) by {
            lemma2_to64();
        }
        assert(low7(s.last()) * p <= 127 * p) by (nonlinear_arith)
            requires
                low7(s.last()) <= 127,
        ;
        assert((7 * k + 7) as nat == (7 * s.len()) as nat);
    }
}

/// Decodes the varint at the front of `buf`: its value and how many bytes it takes.
/// Bits beyond the sixty-fourth are dropped; a varint longer than ten bytes, or one
/// cut off by the end of `buf`, gives `None`.
pub fn decode_varint(buf: &[u8]) -> (r: Option<(u64, usize)>)
    ensures
        match r {
            Some((v, n)) => varint_decoding(buf@) == Some((v, n as nat)),
            None => varint_decoding(buf@) is None,
        },
{
    let mut value: u64 = 0;
    let mut shift: u64 = 0;
    let mut i: usize = 0;
    while i < buf.len()
        invariant
            i <= buf@.len(),
            i <= 10,
            shift == 7 * i,
            forall|j: int| 0 <= j < i ==> continues(#[trigger] buf@[j]),
            i <= 9 ==> value == base128_value(buf@.take(i as int)),
        decreases buf@.len() - i,
    {
        if shift >= 64 {
            proof {
                lemma_varint_span_skip(buf@, i as nat, 10);
            }
            return None;
        }
        let byte = buf[i];
        let x: u64 = (byte & 0x7F) as u64;
        proof {
            assert(byte & 0x7F == byte % 128) by (bit_vector);
            let t = buf@.take(i as int + 1);
            assert(t.drop_last() =~= buf@.take(i as int));
            assert(t.last() == byte);
            lemma_base128_bound(buf@.take(i as int));
            vstd::bits::lemma_u64_pow2_no_overflow(shift as nat);
            vstd::bits::lemma_u64_shl_is_mul(1, shift);
        }
        let ghost old_value = value;
        let ghost old_i = i;
        value = value | (x << shift);
        proof {
            let p = pow2(shift as nat);
            assert(old_value < p);
            assert(base128_value(buf@.take(i as int + 1)) == old_value + x * p);
            if i <= 8 {
                assert(x * p <= 127 * pow2(56)) by {
                    if shift < 56 {
                        lemma_pow2_strictly_increases(shift as nat, 56);
                    }
                    assert(x * p <= 127 * pow2(56)) by (nonlinear_arith)
                        requires
                            x <= 127,
                            p <= pow2(56),
                    ;
                }
                assert(127 * pow2(56) < 0x8000_0000_0000_0000) by {
                    lemma2_to64();
                    lemma2_to64_rest();
                }
                vstd::bits::lemma_u64_shl_is_mul(x, shift);
                assert(old_value | (x << shift) == old_value + (x << shift)) by (bit_vector)
                    requires
                        old_value < (1u64 << shift),
                        shift < 64,
                ;
                assert(value == old_value + x * p);
                assert(value < 0x1_0000_0000_0000_0000);
            } else {
                assert(shift == 63);
                assert(p == 0x8000_0000_0000_0000) by {
                    lemma2_to64_rest();
                }
                assert(old_value | (x << 63u64) == old_value + (x % 2) * 0x8000_0000_0000_0000) by (bit_vector)
                    requires
                        old_value < 0x8000_0000_0000_0000u64,
                        x < 128,
                ;
                assert((old_value + x * 0x8000_0000_0000_0000) % 0x1_0000_0000_0000_0000
                    == old_value + (x % 2) * 0x8000_0000_0000_0000) by (nonlinear_arith)
                    requires
                        old_value < 0x8000_0000_0000_0000u64,
                        x < 128,
                ;
            }
            assert(value as nat == (base128_value(buf@.take(i as int + 1)) % 0x1_0000_0000_0000_0000));
        }
        shift = shift + 7;
        i = i + 1;
        if byte & 0x80 == 0 {
            proof {
                assert(byte & 0x80 == 0 <==> byte < 128) by (bit_vector);
                lemma_varint_span_skip(buf@, old_i as nat, 10);
                let rest = buf@.skip(old_i as int);
                assert(rest[0] == byte);
                assert(varint_span(rest, (10 - old_i) as nat) == Some(1nat));
            }
            return Some((value, i));
        }
        proof {
            assert(byte & 0x80 != 0 <==> byte >= 128) by (bit_vector);
        }
    }
    proof {
        lemma_varint_span_skip(buf@, i as nat, 10);
        assert(buf@.skip(i as int).len() == 0);
    }
    None
}

/// The base-128 varint that encodes `x`: seven bits per byte, least significant
/// first, the high bit set on every byte but the last.
pub open spec fn varint_bytes(x: nat) -> Seq<u8>
    decreases x,
{
    if x < 128 {
        seq![x as u8]
    } else {
        seq![(x % 128 + 128) as u8] + varint_bytes(x / 128)
    }
}

/// Reading base-128 digits front first: the first byte is the least significant digit.
proof fn lemma_base128_prepend(b: u8, t: Seq<u8>)
    ensures
        base128_value(seq![b] + t) == low7(b) + 128 * base128_value(t),
    decreases t.len(),
{
    let s = seq![b] + t;
    if t.len() == 0 {
        assert(s.drop_last() =~= Seq::<u8>::empty());
        assert(pow2(0) == 1) by {
            lemma2_to64();
        }
        assert((7 * (s.len() - 1)) as nat == 0);
        assert(s.last() == b);
        assert(base128_value(s) == base128_value(s.drop_last()) + low7(b) * pow2(0));
        assert(base128_value(t) == 0);
    } else {
        lemma_base128_prepend(b, t.drop_last());
        assert(s.drop_last() =~= seq![b] + t.drop_last());
        assert(s.last() == t.last());
        let k = (t.len() - 1) as nat;
        lemma_pow2_adds(7, (7 * k) as nat);
        assert(pow2(7) == 128) by {
            lemma2_to64();
        }
        assert((7 + 7 * k) as nat == (7 * (s.len() - 1)) as nat);
        let p = pow2((7 * k) as nat);
        assert(pow2((7 * (s.len() - 1)) as nat) == 128 * p);
        assert(low7(t.last()) * (128 * p) == 128 * (low7(t.last()) * p)) by (nonlinear_arith);
        assert(base128_value(s) == base128_value(seq![b] + t.drop_last()) + low7(t.last()) * (128 * p));
        assert(base128_value(t) == base128_value(t.drop_last()) + low7(t.last()) * p);
    }
}

/// The varint of `x` denotes `x`, ends within its bytes, and takes at most `k`
/// bytes when `x < 2^(7k)`.
proof fn lemma_varint_bytes_shape(x: nat, k: nat)
    requires
        k >= 1,
        x < pow2((7 * k) as nat),
    ensures
        base128_value(varint_bytes(x)) == x,
        varint_bytes(x).len() <= k,
        varint_span(varint_bytes(x), k) == Some(varint_bytes(x).len()),
    decreases x,
{
    if x < 128 {
        let e = varint_bytes(x);
        assert(e.drop_last() =~= Seq::<u8>::empty());
        assert(pow2(0) == 1) by {
            lemma2_to64();
        }
        assert((7 * (e.len() - 1)) as nat == 0);
        assert(e.last() == x as u8);
        assert(low7(x as u8) == x);
        assert(base128_value(e) == base128_value(e.drop_last()) + low7(e.last()) * pow2(0));
    } else {
        let b = (x % 128 + 128) as u8;
        assert(pow2(7) == 128) by {
            lemma2_to64();
        }
        if k == 1 {
            assert(false);
        }
        lemma_pow2_adds(7, (7 * (k - 1)) as nat);
        assert((7 + 7 * (k - 1)) as nat == (7 * k) as nat);
        assert(x / 128 < pow2((7 * (k - 1)) as nat)) by (nonlinear_arith)
            requires
                x < 128 * pow2((7 * (k - 1)) as nat),
        ;
        lemma_varint_bytes_shape(x / 128, (k - 1) as nat);
        lemma_base128_prepend(b, varint_bytes(x / 128));
        assert(varint_bytes(x) =~= seq![b] + varint_bytes(x / 128));
        assert(varint_bytes(x).drop_first() =~= varint_bytes(x / 128));
        assert(low7(b) == x % 128);
        assert(x == x % 128 + 128 * (x / 128));
    }
}

/// Decoding the varint of a 64-bit number gives the number back and the length
/// of its varint, whatever bytes follow it.
pub proof fn lemma_varint_roundtrip(x: u64, rest: Seq<u8>)
    ensures
        varint_decoding(varint_bytes(x as nat) + rest) == Some((x, varint_bytes(x as nat).len())),
        1 <= varint_bytes(x as nat).len() <= 10,
{
    assert(pow2(70) > 0x1_0000_0000_0000_0000) by {
        lemma2_to64_rest();
        lemma_pow2_adds(64, 6);
        lemma2_to64();
    }
    lemma_varint_bytes_shape(x as nat, 10);
    let e = varint_bytes(x as nat);
    lemma_varint_span_bounds(e, 10);
    lemma_varint_span_prefix(e, rest, 10);
    assert((e + rest).take(e.len() as int) =~= e);
}

/// The `k` little-endian bytes of `v`, least significant first.
pub open spec fn le_bytes(v: nat, k: nat) -> Seq<u8>
    decreases k,
{
    if k == 0 {
        Seq::empty()
    } else {
        seq![(v % 256) as u8] + le_bytes(v / 256, (k - 1) as nat)
    }
}

/// Little-endian bytes read back as the number they were written from, when it
/// fits in them.
pub proof fn lemma_little_endian_roundtrip(v: nat, k: nat)
    requires
        v < pow2((8 * k) as nat),
    ensures
        le_bytes(v, k).len() == k,
        little_endian(le_bytes(v, k)) == v,
    decreases k,
{
    if k == 0 {
        assert(pow2(0) == 1) by {
            lemma2_to64();
        }
    } else {
        lemma_pow2_adds(8, (8 * (k - 1)) as nat);
        assert(pow2(8) == 256) by {
            lemma2_to64();
        }
        assert((8 + 8 * (k - 1)) as nat == (8 * k) as nat);
        assert(v / 256 < pow2((8 * (k - 1)) as nat)) by (nonlinear_arith)
            requires
                v < 256 * pow2((8 * (k - 1)) as nat),
        ;
        lemma_little_endian_roundtrip(v / 256, (k - 1) as nat);
        let e = le_bytes(v, k);
        assert(e.drop_first() =~= le_bytes(v / 256, (k - 1) as nat));
        assert(v == v % 256 + 256 * (v / 256));
    }
}

/// Reads the first eight bytes of `bytes` as a little-endian `u64`.
/// Trusted: `bytes::Buf::get_u64_le` on a byte slice returns
/// `u64::from_le_bytes` of its first eight bytes, and panics when fewer remain.
#[verifier::external_body]
pub(crate) fn read_u64_le(bytes: &[u8]) -> (r: u64)
    requires
        bytes@.len() >= 8,
    ensures
        r as nat == little_endian(bytes@.take(8)),
{
    let mut buf = bytes;
    buf.get_u64_le()
}

/// Reads the first four bytes of `bytes` as a little-endian `u32`.
/// Trusted: `bytes::Buf::get_u32_le` on a byte slice returns
/// `u32::from_le_bytes` of its first four bytes, and panics when fewer remain.
#[verifier::external_body]
pub(crate) fn read_u32_le(bytes: &[u8]) -> (r: u32)
    requires
        bytes@.len() >= 4,
    ensures
        r as nat == little_endian(bytes@.take(4)),
{
    let mut buf = bytes;
    buf.get_u32_le()
}

} // verus!
