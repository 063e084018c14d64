//! The MQTT remaining-length integer: one to four bytes, seven value bits
//! per byte, bit 7 set while more bytes follow, least-significant group
//! first. It frames every packet, so both directions carry exact contracts.

use vstd::prelude::*;
use crate::error::MqttError;

verus! {

/// Largest value the four-byte remaining-length encoding can carry.
pub const VARINT_MAX: u32 = 268435455;

/// A byte whose bit 7 says that more remaining-length bytes follow.
pub open spec fn is_continuation(b: u8) -> bool {
    b >= 128
}

/// 128 raised to `e`: the multiplier of the `e`-th remaining-length byte.
pub open spec fn pow128(e: nat) -> nat
    decreases e,
{
    if e == 0 {
        1
    } else {
        128 * pow128((e - 1) as nat)
    }
}

/// The remaining-length encoding of `n`.
pub open spec fn varint_bytes(n: nat) -> Seq<u8>
    decreases n,
{
    if n < 128 {
        seq![n as u8]
    } else {
        seq![(n % 128 + 128) as u8] + varint_bytes(n / 128)
    }
}

/// The value a remaining-length decoder accumulates over `b`: the low seven
/// bits of each byte, weighted by 128 per position.
pub open spec fn varint_value_of(b: Seq<u8>) -> nat
    decreases b.len(),
{
    if b.len() == 0 {
        0
    } else {
        (b[0] % 128) as nat + 128 * varint_value_of(b.drop_first())
    }
}

pub proof fn lemma_pow128_le(a: nat, b: nat)
    requires
        a <= b,
    ensures
        pow128(a) <= pow128(b),
    decreases b,
{
    if a < b {
        lemma_pow128_le(a, (b - 1) as nat);
    }
}

/// Every encoding ends, and only ends, with a byte whose bit 7 is clear.
pub proof fn lemma_varint_bytes_shape(n: nat)
    ensures
        varint_bytes(n).len() >= 1,
        forall|i: int|
            0 <= i < varint_bytes(n).len() - 1 ==> is_continuation(#[trigger] varint_bytes(n)[i]),
        !is_continuation(varint_bytes(n)[varint_bytes(n).len() - 1]),
    decreases n,
{
    if n >= 128 {
        lemma_varint_bytes_shape(n / 128);
        assert(varint_bytes(n) =~= seq![(n % 128 + 128) as u8] + varint_bytes(n / 128));
    }
}

pub proof fn lemma_varint_bytes_len(n: nat, k: nat)
    requires
        k >= 1,
        n < pow128(k),
    ensures
        varint_bytes(n).len() <= k,
    decreases n,
{
    if n >= 128 {
        assert(pow128(k) == 128 * pow128((k - 1) as nat));
        lemma_varint_bytes_len(n / 128, (k - 1) as nat);
    }
}

/// Appending a byte adds its low seven bits at the next weight.
pub proof fn lemma_varint_value_push(s: Seq<u8>, b: u8)
    ensures
        varint_value_of(s.push(b)) == varint_value_of(s) + (b % 128) * pow128(s.len()),
    decreases s.len(),
{
    if s.len() == 0 {
        assert(s.push(b) =~= seq![b]);
        assert(seq![b].drop_first() =~= Seq::<u8>::empty());
        assert(varint_value_of(seq![b]) == (b % 128) as nat + 128 * varint_value_of(
            seq![b].drop_first(),
        ));
        assert(pow128(0) == 1);
    } else {
        assert(s.push(b).drop_first() =~= s.drop_first().push(b));
        lemma_varint_value_push(s.drop_first(), b);
        let v = varint_value_of(s.drop_first());
        let m = (b % 128) as nat;
        let p = pow128((s.len() - 1) as nat);
        assert(varint_value_of(s.drop_first().push(b)) == v + m * p);
        assert(s.push(b)[0] == s[0]);
        assert(s.push(b).len() == s.len() + 1);
        assert(varint_value_of(s.push(b)) == (s.push(b)[0] % 128) as nat + 128 * varint_value_of(
            s.push(b).drop_first(),
        ));
        assert(varint_value_of(s.push(b)) == (s[0] % 128) as nat + 128 * (v + m * p));
        assert(varint_value_of(s) == (s[0] % 128) as nat + 128 * v);
        assert(128 * (v + m * p) == 128 * v + m * (128 * p)) by (nonlinear_arith);
        assert(pow128(s.len()) == 128 * p);
        assert(varint_value_of(s.push(b)) == varint_value_of(s) + m * pow128(s.len()));
    }
}

pub proof fn lemma_varint_value_bound(s: Seq<u8>)
    ensures
        varint_value_of(s) < pow128(s.len()),
    decreases s.len(),
{
    if s.len() > 0 {
        lemma_varint_value_bound(s.drop_first());
    }
}

/// The round trip on which framing rests: decoding the encoding of any
/// value within the four-byte cap yields that value, consuming exactly the
/// encoded bytes, and those bytes are one to four with the terminator last.
pub proof fn lemma_varint_round_trip(v: u32)
    requires
        v <= VARINT_MAX,
    ensures
        varint_value_of(varint_bytes(v as nat)) == v,
        1 <= varint_bytes(v as nat).len() <= 4,
        forall|i: int|
            0 <= i < varint_bytes(v as nat).len() - 1 ==> is_continuation(
                #[trigger] varint_bytes(v as nat)[i],
            ),
        !is_continuation(varint_bytes(v as nat)[varint_bytes(v as nat).len() - 1]),
{
    lemma_value_of_bytes(v as nat);
    lemma_varint_bytes_shape(v as nat);
    assert(pow128(0) == 1);
    assert(pow128(1) == 128);
    assert(pow128(2) == 16384);
    assert(pow128(3) == 2097152);
    assert(pow128(4) == 268435456);
    lemma_varint_bytes_len(v as nat, 4);
}

proof fn lemma_value_of_bytes(n: nat)
    ensures
        varint_value_of(varint_bytes(n)) == n,
    decreases n,
{
    if n < 128 {
        assert(varint_bytes(n) =~= seq![n as u8]);
        assert(seq![n as u8].drop_first() =~= Seq::<u8>::empty());
        assert(varint_value_of(Seq::<u8>::empty()) == 0);
        assert(varint_value_of(seq![n as u8]) == (n as u8 % 128) as nat + 128 * varint_value_of(
            seq![n as u8].drop_first(),
        ));
    } else {
        lemma_value_of_bytes(n / 128);
        let h = (n % 128 + 128) as u8;
        let t = varint_bytes(n / 128);
        assert(varint_bytes(n) =~= seq![h] + t);
        assert((seq![h] + t)[0] == h);
        assert((seq![h] + t).drop_first() =~= t);
        assert(varint_value_of(seq![h] + t) == (h % 128) as nat + 128 * varint_value_of(t));
        assert((h % 128) as nat == n % 128);
        assert(n % 128 + 128 * (n / 128) == n);
    }
}

/// Encodes `value` as a remaining-length integer; values over the four-byte
/// cap are rejected before any bytes are built.
pub fn encode_varint(value: u32) -> (r: Result<Vec<u8>, MqttError>)
    ensures
        value <= VARINT_MAX ==> (r matches Ok(b) && b@ == varint_bytes(value as nat)),
        value > VARINT_MAX ==> (r matches Err(e) && e == MqttError::EncodingError),
{
    if value > VARINT_MAX {
        return Err(MqttError::EncodingError);
    }
    let mut out: Vec<u8> = Vec::new();
    let mut x: u32 = value;
    let mut done: bool = false;
    while !done
        invariant
            !done ==> out@ + varint_bytes(x as nat) == varint_bytes(value as nat),
            done ==> out@ == varint_bytes(value as nat),
        decreases (if done { 0int } else { 1int }), x,
    {
        let ghost x0 = x as nat;
        let ghost out0 = out@;
        let byte: u8 = (x % 128) as u8;
        x = x / 128;
        if x > 0 {
            proof {
                assert(varint_bytes(x0) =~= seq![(x0 % 128 + 128) as u8] + varint_bytes(x0 / 128));
            }
            out.push(byte + 128);
            proof {
                assert(out@ + varint_bytes(x as nat) =~= out0 + varint_bytes(x0));
            }
        } else {
            out.push(byte);
            done = true;
            proof {
                assert(varint_bytes(x0) =~= seq![x0 as u8]);
                assert(out@ =~= out0 + varint_bytes(x0));
            }
        }
    }
    Ok(out)
}

/// Decodes a remaining-length integer from the front of `bytes`, returning
/// the value and the count of bytes consumed. Fails if four continuation
/// bytes appear, or if the input ends before the terminating byte.
pub fn decode_varint(bytes: &[u8]) -> (r: Result<(u32, usize), MqttError>)
    ensures
        match r {
            Ok(p) => {
                &&& 1 <= p.1 <= 4
                &&& p.1 <= bytes@.len()
                &&& forall|j: int| 0 <= j < p.1 - 1 ==> is_continuation(#[trigger] bytes@[j])
                &&& !is_continuation(bytes@[p.1 - 1])
                &&& p.0 as nat == varint_value_of(bytes@.subrange(0, p.1 as int))
                &&& p.0 <= VARINT_MAX
            },
            Err(e) => {
                &&& e == MqttError::MalformedVarInt
                &&& forall|j: int|
                    0 <= j < 4 && j < bytes@.len() ==> is_continuation(#[trigger] bytes@[j])
            },
        },
{
    proof {
        assert(pow128(0) == 1);
        assert(pow128(1) == 128);
        assert(pow128(2) == 16384);
        assert(pow128(3) == 2097152);
        assert(pow128(4) == 268435456);
    }
    let mut value: u32 = 0;
    let mut multiplier: u32 = 1;
    let mut i: usize = 0;
    while i < 4 && i < bytes.len()
        invariant
            i <= 4,
            i <= bytes@.len(),
            multiplier == pow128(i as nat),
            value as nat == varint_value_of(bytes@.subrange(0, i as int)),
            (value as nat) < pow128(i as nat),
            forall|j: int| 0 <= j < i ==> is_continuation(#[trigger] bytes@[j]),
            pow128(4) == 268435456,
            pow128(3) == 2097152,
        decreases 4 - i,
    {
        let b: u8 = bytes[i];
        let low: u32 = (b % 128) as u32;
        proof {
            lemma_varint_value_push(bytes@.subrange(0, i as int), b);
            assert(bytes@.subrange(0, i as int).push(b) =~= bytes@.subrange(0, i as int + 1));
            lemma_varint_value_bound(bytes@.subrange(0, i as int + 1));
            lemma_pow128_le((i + 1) as nat, 4);
            assert(pow128((i + 1) as nat) == 128 * pow128(i as nat));
            assert(bytes@.subrange(0, i as int).len() == i as nat);
            assert(varint_value_of(bytes@.subrange(0, i as int + 1)) == value as nat + (b
                % 128) as nat * pow128(i as nat));
            assert((b % 128) as nat * pow128(i as nat) == (low as nat) * (multiplier as nat));
            assert(value as nat + (low as nat) * (multiplier as nat) < pow128(4));
        }
        value = value + low * multiplier;
        i = i + 1;
        if b < 128 {
            return Ok((value, i));
        }
        multiplier = multiplier * 128;
    }
    Err(MqttError::MalformedVarInt)
}

/// True while more bytes could still complete a remaining-length integer:
/// everything seen so far is a continuation byte and fewer than four bytes
/// have arrived. A read loop feeds one byte at a time until this is false.
pub fn varint_incomplete(bytes: &[u8]) -> (r: bool)
    ensures
        r == (bytes@.len() < 4 && forall|j: int|
            0 <= j < bytes@.len() ==> is_continuation(#[trigger] bytes@[j])),
{
    if bytes.len() >= 4 {
        return false;
    }
    let mut i: usize = 0;
    while i < bytes.len()
        invariant
            i <= bytes@.len(),
            bytes@.len() < 4,
            forall|j: int| 0 <= j < i ==> is_continuation(#[trigger] bytes@[j]),
        decreases bytes@.len() - i,
    {
        if bytes[i] < 128 {
            return false;
        }
        i = i + 1;
    }
    true
}

} // verus!
