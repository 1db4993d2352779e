//! The binary form of the program's data: little-endian integers, fixed-width
//! addresses, and lists with a four-byte length in front.
use vstd::prelude::*;

verus! {

/// The number that little-endian bytes stand for.
pub open spec fn le_value(s: Seq<u8>) -> nat
    decreases s.len(),
{
    if s.len() == 0 {
        0
    } else {
        s[0] as nat + 256 * le_value(s.drop_first())
    }
}

/// The `n` low-order bytes of `v`, lowest first.
pub open spec fn le_bytes(v: nat, n: nat) -> Seq<u8>
    decreases n,
{
    if n == 0 {
        Seq::empty()
    } else {
        seq![(v % 256) as u8] + le_bytes(v / 256, (n - 1) as nat)
    }
}

/// How many values `n` bytes can tell apart.
pub open spec fn byte_span(n: nat) -> nat
    decreases n,
{
    if n == 0 {
        1
    } else {
        256 * byte_span((n - 1) as nat)
    }
}

/// The signed number whose two's complement, in eight bytes, is `v`.
pub open spec fn signed_value(v: nat) -> int {
    if v <= i64::MAX {
        v as int
    } else {
        v - 0x1_0000_0000_0000_0000
    }
}

/// The two's complement of `v` in eight bytes, as a natural number.
pub open spec fn unsigned_value(v: int) -> nat {
    if v >= 0 {
        v as nat
    } else {
        (v + 0x1_0000_0000_0000_0000) as nat
    }
}

/// The byte that stands for a truth value.
pub open spec fn bool_byte(b: bool) -> u8 {
    if b {
        1
    } else {
        0
    }
}

/// A list of addresses with its length in front, and the bytes that follow it.
pub open spec fn parse_keys(s: Seq<u8>) -> Option<(Seq<Seq<u8>>, Seq<u8>)> {
    if s.len() < 4 {
        None
    } else {
        let n = le_value(s.take(4));
        let body = s.skip(4);
        if body.len() < 32 * n {
            None
        } else {
            Some((Seq::new(n, |i: int| body.subrange(32 * i, 32 * i + 32)), body.skip(32 * n as int)))
        }
    }
}

/// The binary form of a list of addresses.
pub open spec fn encode_keys(keys: Seq<Seq<u8>>) -> Seq<u8> {
    le_bytes(keys.len(), 4) + keys.flatten()
}

/// `n` byte strings, each with its length in front, and the bytes that follow them.
pub open spec fn parse_blobs(s: Seq<u8>, n: nat) -> Option<(Seq<Seq<u8>>, Seq<u8>)>
    decreases n,
{
    if n == 0 {
        Some((Seq::empty(), s))
    } else if s.len() < 4 || s.len() < 4 + le_value(s.take(4)) {
        None
    } else {
        let end = 4 + le_value(s.take(4));
        match parse_blobs(s.skip(end as int), (n - 1) as nat) {
            Some((rest, tail)) => Some((seq![s.subrange(4, end as int)] + rest, tail)),
            None => None,
        }
    }
}

/// The byte strings that `s` holds, if `s` is a list of byte strings and nothing else.
pub open spec fn decode_seeds(s: Seq<u8>) -> Option<Seq<Seq<u8>>> {
    if s.len() < 4 {
        None
    } else {
        match parse_blobs(s.skip(4), le_value(s.take(4))) {
            Some((seeds, tail)) => if tail.len() == 0 {
                Some(seeds)
            } else {
                None
            },
            None => None,
        }
    }
}

/// Byte strings one after the other, each with its length in front.
pub open spec fn encode_blobs(blobs: Seq<Seq<u8>>) -> Seq<u8>
    decreases blobs.len(),
{
    if blobs.len() == 0 {
        Seq::empty()
    } else {
        le_bytes(blobs[0].len(), 4) + blobs[0] + encode_blobs(blobs.drop_first())
    }
}

/// The binary form of a list of byte strings.
pub open spec fn encode_seeds(seeds: Seq<Seq<u8>>) -> Seq<u8> {
    le_bytes(seeds.len(), 4) + encode_blobs(seeds)
}

/// The contents of a list of byte strings.
pub open spec fn blob_bytes(v: Seq<Vec<u8>>) -> Seq<Seq<u8>> {
    Seq::new(v.len(), |i: int| v[i]@)
}

/// The contents of a list of fixed-width byte strings.
pub open spec fn array_bytes(v: Seq<[u8; 32]>) -> Seq<Seq<u8>> {
    Seq::new(v.len(), |i: int| v[i]@)
}

/// What is said of input of `len` bytes where `expected` are wanted.
pub open spec fn length_complaint(len: nat, expected: nat) -> Seq<char> {
    if len < expected {
        "Unexpected length of input"@
    } else {
        "Not all bytes read"@
    }
}

/// `data` with as much of `bytes` as fits written over its front.
pub open spec fn overwrite(data: Seq<u8>, bytes: Seq<u8>) -> Seq<u8> {
    if data.len() >= bytes.len() {
        bytes + data.skip(bytes.len() as int)
    } else {
        bytes.take(data.len() as int)
    }
}

/// Calls `borsh::BorshDeserialize::try_from_slice` for an address followed by
/// a `u64`. It reads the 32 bytes and then the integer, lowest byte first. It
/// fails where the input ends too early and where input is left over, each with
/// a message of its own.
#[verifier::external_body]
pub(crate) fn borsh_read_key_and_u64(data: &[u8]) -> (r: Result<([u8; 32], u64), String>)
    ensures
        match r {
            Ok(v) => data@.len() == 40 && v.0@ == data@.take(32) && v.1 == le_value(data@.skip(32)),
            Err(m) => data@.len() != 40 && m@ == length_complaint(data@.len(), 40),
        },
{
    match <([u8; 32], u64) as borsh::BorshDeserialize>::try_from_slice(data) {
        Ok(v) => Ok(v),
        Err(e) => Err(e.to_string()),
    }
}

/// Calls `borsh::BorshSerialize::serialize` for an address followed by a `u64`,
/// with the bytes of `data` as the place to write to. The bytes go over the front of
/// `data`; where they do not all fit, those that fit are written and the call
/// fails. The text of that failure is the standard library's and is left open.
#[verifier::external_body]
pub(crate) fn borsh_write_key_and_u64(key: &[u8; 32], value: u64, data: &mut Vec<u8>) -> (r: Result<
    (),
    String,
>)
    ensures
        r is Ok <==> old(data)@.len() >= 40,
        final(data)@ == overwrite(old(data)@, key@ + le_bytes(value as nat, 8)),
{
    let mut writer: &mut [u8] = data.as_mut_slice();
    match borsh::BorshSerialize::serialize(&(*key, value), &mut writer) {
        Ok(()) => Ok(()),
        Err(e) => Err(e.to_string()),
    }
}

/// Calls `borsh::BorshDeserialize::try_from_slice` for an `i64`, a `u32` and an
/// address, in that order: integers lowest byte first, the signed one in two's
/// complement. It succeeds on exactly 44 bytes.
#[verifier::external_body]
pub(crate) fn borsh_read_i64_u32_key(data: &[u8]) -> (r: Option<(i64, u32, [u8; 32])>)
    ensures
        match r {
            Some(v) => data@.len() == 44 && v.0 == signed_value(le_value(data@.take(8))) && v.1
                == le_value(data@.subrange(8, 12)) && v.2@ == data@.skip(12),
            None => data@.len() != 44,
        },
{
    match <(i64, u32, [u8; 32]) as borsh::BorshDeserialize>::try_from_slice(data) {
        Ok(v) => Some(v),
        Err(_) => None,
    }
}

/// Calls `borsh::BorshDeserialize::try_from_slice` for a list of addresses: a
/// `u32` length, lowest byte first, and then so many times 32 bytes. It fails
/// where the input ends too early or input is left over.
#[verifier::external_body]
pub(crate) fn borsh_read_keys(data: &[u8]) -> (r: Option<Vec<[u8; 32]>>)
    ensures
        match parse_keys(data@) {
            Some((keys, tail)) => if tail.len() == 0 {
                r matches Some(v) && array_bytes(v@) == keys
            } else {
                r is None
            },
            None => r is None,
        },
{
    match <Vec<[u8; 32]> as borsh::BorshDeserialize>::try_from_slice(data) {
        Ok(v) => Some(v),
        Err(_) => None,
    }
}

/// Calls `borsh::BorshDeserialize::try_from_slice` for a list of addresses and
/// three truth values: the list as in a list of addresses alone, then one byte
/// for each truth value, 0 or 1. It fails where the input ends too early, input
/// is left over, or one of the last three bytes is neither 0 nor 1.
#[verifier::external_body]
pub(crate) fn borsh_read_keys_and_flags(data: &[u8]) -> (r: Option<
    (Vec<[u8; 32]>, bool, bool, bool),
>)
    ensures
        match parse_keys(data@) {
            Some((keys, tail)) => if tail.len() == 3 && tail[0] <= 1 && tail[1] <= 1 && tail[2]
                <= 1 {
                r matches Some(v) && array_bytes(v.0@) == keys && v.1 == (tail[0] == 1) && v.2 == (
                tail[1] == 1) && v.3 == (tail[2] == 1)
            } else {
                r is None
            },
            None => r is None,
        },
{
    match <(Vec<[u8; 32]>, bool, bool, bool) as borsh::BorshDeserialize>::try_from_slice(data) {
        Ok(v) => Some(v),
        Err(_) => None,
    }
}

/// Calls `borsh::BorshDeserialize::try_from_slice` for a list of byte strings:
/// a `u32` length, lowest byte first, and then so many byte strings, each with
/// a `u32` length of its own in front. It fails where the input ends too early
/// or input is left over.
#[verifier::external_body]
pub(crate) fn borsh_read_seeds(data: &[u8]) -> (r: Option<Vec<Vec<u8>>>)
    ensures
        match decode_seeds(data@) {
            Some(seeds) => r matches Some(v) && blob_bytes(v@) == seeds,
            None => r is None,
        },
{
    match <Vec<Vec<u8>> as borsh::BorshDeserialize>::try_from_slice(data) {
        Ok(v) => Some(v),
        Err(_) => None,
    }
}

/// Reads `ephemeral_rollups_sdk::consts::EXTERNAL_UNDELEGATE_DISCRIMINATOR`, the
/// eight bytes in front of an undelegation that the delegation program asks for.
#[verifier::external_body]
pub(crate) fn external_undelegate_discriminator() -> (r: [u8; 8])
    ensures
        r@ == undelegate_discriminator(),
{
    ephemeral_rollups_sdk::consts::EXTERNAL_UNDELEGATE_DISCRIMINATOR
}

/// The bytes in front of an undelegation that the delegation program asks for.
pub open spec fn undelegate_discriminator() -> Seq<u8> {
    seq![196u8, 28, 41, 206, 48, 37, 51, 167]
}

/// `n` bytes stand for a number below `256` to the power of `n`, and that
/// number has these bytes.
pub proof fn lemma_le_value(s: Seq<u8>)
    ensures
        le_value(s) < byte_span(s.len()),
        le_bytes(le_value(s), s.len()) == s,
    decreases s.len(),
{
    if s.len() == 0 {
        assert(le_bytes(le_value(s), s.len()) =~= s);
    } else {
        let rest = s.drop_first();
        lemma_le_value(rest);
        let v = le_value(s);
        assert(v % 256 == s[0] as nat);
        assert(v / 256 == le_value(rest));
        assert(le_bytes(v, s.len()) =~= s);
    }
}

/// The `n` low-order bytes of a number below `256` to the power of `n` stand for
/// that number.
pub proof fn lemma_le_bytes(v: nat, n: nat)
    requires
        v < byte_span(n),
    ensures
        le_bytes(v, n).len() == n,
        le_value(le_bytes(v, n)) == v,
    decreases n,
{
    if n > 0 {
        lemma_le_bytes(v / 256, (n - 1) as nat);
        let rest = le_bytes(v / 256, (n - 1) as nat);
        assert(le_bytes(v, n).drop_first() =~= rest);
    }
}

/// Four bytes hold every `u32`, and eight bytes every `u64`.
pub proof fn lemma_byte_spans()
    ensures
        byte_span(4) == u32::MAX + 1,
        byte_span(8) == u64::MAX + 1,
{
    reveal_with_fuel(byte_span, 9);
}

proof fn lemma_blobs_round_trip(blobs: Seq<Seq<u8>>)
    requires
        forall|i: int| 0 <= i < blobs.len() ==> (#[trigger] blobs[i]).len() <= u32::MAX,
    ensures
        parse_blobs(encode_blobs(blobs), blobs.len()) == Some((blobs, Seq::<u8>::empty())),
    decreases blobs.len(),
{
    let s = encode_blobs(blobs);
    if blobs.len() == 0 {
        assert(blobs =~= Seq::empty());
    } else {
        let rest = blobs.drop_first();
        assert forall|i: int| 0 <= i < rest.len() implies (#[trigger] rest[i]).len()
            <= u32::MAX by {
            assert(rest[i] == blobs[i + 1]);
        }
        lemma_blobs_round_trip(rest);
        lemma_byte_spans();
        lemma_le_bytes(blobs[0].len(), 4);
        let end = 4 + blobs[0].len() as int;
        assert(s.take(4) =~= le_bytes(blobs[0].len(), 4));
        assert(s.skip(end) =~= encode_blobs(rest));
        assert(s.subrange(4, end) =~= blobs[0]);
        assert(seq![blobs[0]] + rest =~= blobs);
    }
}

/// Seeds are read back from their binary form.
pub proof fn law_decode_inverts_encode_seeds(seeds: Seq<Seq<u8>>)
    requires
        seeds.len() <= u32::MAX,
        forall|i: int| 0 <= i < seeds.len() ==> (#[trigger] seeds[i]).len() <= u32::MAX,
    ensures
        decode_seeds(encode_seeds(seeds)) == Some(seeds),
{
    lemma_byte_spans();
    lemma_le_bytes(seeds.len(), 4);
    lemma_blobs_round_trip(seeds);
    let s = encode_seeds(seeds);
    assert(s.take(4) =~= le_bytes(seeds.len(), 4));
    assert(s.skip(4) =~= encode_blobs(seeds));
}

proof fn lemma_parsed_blobs(s: Seq<u8>, n: nat)
    requires
        parse_blobs(s, n) is Some,
    ensures
        ({
            let (blobs, tail) = parse_blobs(s, n)->Some_0;
            &&& blobs.len() == n
            &&& encode_blobs(blobs) + tail == s
            &&& forall|i: int| 0 <= i < blobs.len() ==> (#[trigger] blobs[i]).len() <= u32::MAX
        }),
    decreases n,
{
    if n == 0 {
        assert(encode_blobs(Seq::empty()) + s =~= s);
    } else {
        lemma_byte_spans();
        lemma_le_value(s.take(4));
        let len = le_value(s.take(4));
        let end = 4 + len as int;
        lemma_parsed_blobs(s.skip(end), (n - 1) as nat);
        let (rest, tail) = parse_blobs(s.skip(end), (n - 1) as nat)->Some_0;
        let first = s.subrange(4, end);
        let blobs = seq![first] + rest;
        assert(blobs.drop_first() =~= rest);
        assert(encode_blobs(blobs) + tail =~= s.take(4) + first + (encode_blobs(rest) + tail));
        assert(s.take(4) + first + s.skip(end) =~= s);
        assert forall|i: int| 0 <= i < blobs.len() implies (#[trigger] blobs[i]).len()
            <= u32::MAX by {
            if i > 0 {
                assert(blobs[i] == rest[i - 1]);
            }
        }
    }
}

/// Data that seeds are read from are their binary form, and no other data are.
pub proof fn law_encode_inverts_decode_seeds(s: Seq<u8>)
    requires
        decode_seeds(s) is Some,
    ensures
        ({
            let seeds = decode_seeds(s)->Some_0;
            &&& encode_seeds(seeds) == s
            &&& seeds.len() <= u32::MAX
            &&& forall|i: int| 0 <= i < seeds.len() ==> (#[trigger] seeds[i]).len() <= u32::MAX
        }),
{
    lemma_byte_spans();
    lemma_le_value(s.take(4));
    lemma_parsed_blobs(s.skip(4), le_value(s.take(4)));
    let (seeds, tail) = parse_blobs(s.skip(4), le_value(s.take(4)))->Some_0;
    assert(encode_blobs(seeds) + tail =~= encode_blobs(seeds));
    assert(encode_seeds(seeds) =~= s);
}

} // verus!
