//! The byte encodings of the values a transaction is made of.
//!
//! Integers are written little-endian at their full width. A string is written
//! as the compact encoding of the length of its UTF-8 form, followed by that
//! form. The executable encoders and decoders are those of
//! `parity-scale-codec`; this module states what they produce and proves that
//! an encoding can be read back in one way only.

use vstd::prelude::*;
use vstd::utf8::*;

verus! {

/// The error of `parity-scale-codec`. Nothing is known of what it holds.
#[verifier::external_type_specification]
#[verifier::external_body]
pub struct ExCodecError(parity_scale_codec::Error);

/// `256` to the power `width`: the number of values that fit in `width` bytes.
pub open spec fn radix(width: nat) -> nat
    decreases width,
{
    if width == 0 {
        1
    } else {
        256 * radix((width - 1) as nat)
    }
}

/// The `width` low bytes of `n`, least significant first.
pub open spec fn le_bytes(n: nat, width: nat) -> Seq<u8>
    decreases width,
{
    if width == 0 {
        Seq::empty()
    } else {
        seq![(n % 256) as u8] + le_bytes(n / 256, (width - 1) as nat)
    }
}

/// The number that `bytes` spell, least significant byte first.
pub open spec fn le_value(bytes: Seq<u8>) -> nat
    decreases bytes.len(),
{
    if bytes.len() == 0 {
        0
    } else {
        bytes[0] as nat + 256 * le_value(bytes.drop_first())
    }
}

/// The compact encoding of a length `n`: the two low bits of the first byte
/// say how many bytes follow, the rest holds `n`.
pub open spec fn compact_len(n: nat) -> Seq<u8> {
    if n < 0x40 {
        le_bytes(4 * n, 1)
    } else if n < 0x4000 {
        le_bytes(4 * n + 1, 2)
    } else if n < 0x4000_0000 {
        le_bytes(4 * n + 2, 4)
    } else {
        seq![3u8] + le_bytes(n, 4)
    }
}

/// Whether a string is short enough to be encoded: the length of its UTF-8
/// form must fit the 32-bit length prefix.
pub open spec fn fits(s: Seq<char>) -> bool {
    encode_utf8(s).len() <= u32::MAX
}

/// The encoding of a string: its length in bytes, compact, then its UTF-8 form.
pub open spec fn str_bytes(s: Seq<char>) -> Seq<u8> {
    compact_len(encode_utf8(s).len()) + encode_utf8(s)
}

/// `u64::encode` of `parity-scale-codec`: the eight bytes of `n`, little-endian.
#[verifier::external_body]
pub(crate) fn encode_u64(n: u64) -> (out: Vec<u8>)
    ensures
        out@ == le_bytes(n as nat, 8),
{
    parity_scale_codec::Encode::encode(&n)
}

/// `u128::encode` of `parity-scale-codec`: the sixteen bytes of `n`,
/// little-endian.
#[verifier::external_body]
pub(crate) fn encode_u128(n: u128) -> (out: Vec<u8>)
    ensures
        out@ == le_bytes(n as nat, 16),
{
    parity_scale_codec::Encode::encode(&n)
}

/// `str::encode` of `parity-scale-codec`: the compact length of the UTF-8 form
/// of `s`, then that form. The call panics on a string of more than
/// `u32::MAX` bytes, which `requires` leaves out.
#[verifier::external_body]
pub(crate) fn encode_str(s: &str) -> (out: Vec<u8>)
    requires
        fits(s@),
    ensures
        out@ == str_bytes(s@),
{
    parity_scale_codec::Encode::encode(s)
}

/// `u64::decode` of `parity-scale-codec` on a byte slice: reads the first
/// eight bytes as a little-endian number and hands back what follows them;
/// fails on fewer than eight bytes.
#[verifier::external_body]
pub(crate) fn decode_u64<'a>(input: &'a [u8]) -> (r: (
    Result<u64, parity_scale_codec::Error>,
    &'a [u8],
))
    ensures
        input@.len() < 8 ==> r.0 is Err,
        input@.len() >= 8 ==> r.0 is Ok && r.0->Ok_0 as nat == le_value(input@.take(8)) && r.1@
            == input@.skip(8),
{
    let mut rest = input;
    let decoded = parity_scale_codec::Decode::decode(&mut rest);
    (decoded, rest)
}

/// `u128::decode` of `parity-scale-codec` on a byte slice: reads the first
/// sixteen bytes as a little-endian number and hands back what follows them;
/// fails on fewer than sixteen bytes.
#[verifier::external_body]
pub(crate) fn decode_u128<'a>(input: &'a [u8]) -> (r: (
    Result<u128, parity_scale_codec::Error>,
    &'a [u8],
))
    ensures
        input@.len() < 16 ==> r.0 is Err,
        input@.len() >= 16 ==> r.0 is Ok && r.0->Ok_0 as nat == le_value(input@.take(16)) && r.1@
            == input@.skip(16),
{
    let mut rest = input;
    let decoded = parity_scale_codec::Decode::decode(&mut rest);
    (decoded, rest)
}

/// `String::decode` of `parity-scale-codec` on a byte slice. It succeeds
/// exactly when the input begins with the encoding of a string, and then
/// returns that string and the bytes that follow the encoding: the decoder
/// rejects a length prefix that is not the shortest for its value, an input
/// shorter than the length announces, and bytes that are not UTF-8.
#[verifier::external_body]
pub(crate) fn decode_string<'a>(input: &'a [u8]) -> (r: (
    Result<String, parity_scale_codec::Error>,
    &'a [u8],
))
    ensures
        r.0 is Ok ==> fits(r.0->Ok_0@) && input@ == str_bytes(r.0->Ok_0@) + r.1@,
        r.0 is Err ==> forall|s: Seq<char>, rest: Seq<u8>|
            fits(s) ==> input@ != #[trigger] (str_bytes(s) + rest),
{
    let mut rest = input;
    let decoded = parity_scale_codec::Decode::decode(&mut rest);
    (decoded, rest)
}

/// `le_bytes` writes as many bytes as it is asked for.
pub proof fn lemma_le_bytes_len(n: nat, width: nat)
    ensures
        le_bytes(n, width).len() == width,
    decreases width,
{
    if width > 0 {
        lemma_le_bytes_len(n / 256, (width - 1) as nat);
    }
}

/// Reading back what `le_bytes` wrote gives the number, if it fits the width.
pub proof fn lemma_le_value_of_le_bytes(n: nat, width: nat)
    requires
        n < radix(width),
    ensures
        le_value(le_bytes(n, width)) == n,
    decreases width,
{
    if width > 0 {
        let tail = le_bytes(n / 256, (width - 1) as nat);
        let all = le_bytes(n, width);
        lemma_le_value_of_le_bytes(n / 256, (width - 1) as nat);
        lemma_le_bytes_len(n / 256, (width - 1) as nat);
        assert(all.drop_first() =~= tail);
        assert(all[0] == (n % 256) as u8);
    }
}

/// Writing the number that `bytes` spell gives `bytes` back.
pub proof fn lemma_le_bytes_of_le_value(bytes: Seq<u8>)
    ensures
        le_bytes(le_value(bytes), bytes.len()) == bytes,
        le_value(bytes) < radix(bytes.len()),
    decreases bytes.len(),
{
    if bytes.len() > 0 {
        let rest = bytes.drop_first();
        lemma_le_bytes_of_le_value(rest);
        let v = le_value(bytes);
        assert(v == bytes[0] as nat + 256 * le_value(rest));
        assert(v % 256 == bytes[0] as nat);
        assert(v / 256 == le_value(rest));
        assert(le_bytes(v, bytes.len()) =~= bytes);
    } else {
        assert(le_bytes(0, 0) =~= bytes);
    }
}

/// Two numbers that fit a width and have the same bytes are the same number.
pub proof fn lemma_le_bytes_injective(a: nat, b: nat, width: nat)
    requires
        a < radix(width),
        b < radix(width),
        le_bytes(a, width) == le_bytes(b, width),
    ensures
        a == b,
{
    lemma_le_value_of_le_bytes(a, width);
    lemma_le_value_of_le_bytes(b, width);
}

/// The values of `radix` at the widths in use.
pub proof fn lemma_radix_values()
    ensures
        radix(1) == 0x100,
        radix(2) == 0x1_0000,
        radix(4) == 0x1_0000_0000,
        radix(8) == 0x1_0000_0000_0000_0000,
        radix(16) == 0x1_0000_0000_0000_0000_0000_0000_0000_0000,
{
    reveal_with_fuel(radix, 17);
}

/// If two sequences with the same length are each followed by a rest and the
/// wholes are equal, the sequences are equal and so are the rests.
pub proof fn lemma_concat_parts(a: Seq<u8>, rest_a: Seq<u8>, b: Seq<u8>, rest_b: Seq<u8>)
    requires
        a.len() == b.len(),
        a + rest_a == b + rest_b,
    ensures
        a == b,
        rest_a == rest_b,
{
    let whole = a + rest_a;
    assert(whole.take(a.len() as int) =~= a);
    assert(whole.take(a.len() as int) =~= b);
    assert(whole.skip(a.len() as int) =~= rest_a);
    assert(whole.skip(a.len() as int) =~= rest_b);
}

/// The number of bytes in the compact encoding of a length.
pub open spec fn compact_width(n: nat) -> nat {
    if n < 0x40 {
        1
    } else if n < 0x4000 {
        2
    } else if n < 0x4000_0000 {
        4
    } else {
        5
    }
}

/// The two low bits of the first byte of a compact encoding tell its width.
pub proof fn lemma_compact_len_shape(n: nat)
    requires
        n <= u32::MAX,
    ensures
        compact_len(n).len() == compact_width(n),
        compact_width(n) == 1 <==> compact_len(n)[0] % 4 == 0,
        compact_width(n) == 2 <==> compact_len(n)[0] % 4 == 1,
        compact_width(n) == 4 <==> compact_len(n)[0] % 4 == 2,
        compact_width(n) == 5 <==> compact_len(n)[0] % 4 == 3,
{
    lemma_le_bytes_len(4 * n, 1);
    lemma_le_bytes_len(4 * n + 1, 2);
    lemma_le_bytes_len(4 * n + 2, 4);
    lemma_le_bytes_len(n, 4);
    if n < 0x40 {
        assert(le_bytes(4 * n, 1)[0] == ((4 * n) % 256) as u8);
    } else if n < 0x4000 {
        assert(le_bytes(4 * n + 1, 2)[0] == ((4 * n + 1) % 256) as u8);
    } else if n < 0x4000_0000 {
        assert(le_bytes(4 * n + 2, 4)[0] == ((4 * n + 2) % 256) as u8);
    } else {
        assert(compact_len(n)[0] == 3u8);
    }
}

/// A compact encoding followed by anything can be split in one way only.
pub proof fn lemma_compact_len_unique(a: nat, rest_a: Seq<u8>, b: nat, rest_b: Seq<u8>)
    requires
        a <= u32::MAX,
        b <= u32::MAX,
        compact_len(a) + rest_a == compact_len(b) + rest_b,
    ensures
        a == b,
        rest_a == rest_b,
{
    lemma_compact_len_shape(a);
    lemma_compact_len_shape(b);
    lemma_radix_values();
    let whole = compact_len(a) + rest_a;
    assert(whole[0] == compact_len(a)[0]);
    assert((compact_len(b) + rest_b)[0] == compact_len(b)[0]);
    assert(compact_width(a) == compact_width(b));
    lemma_concat_parts(compact_len(a), rest_a, compact_len(b), rest_b);
    if a < 0x40 {
        lemma_le_bytes_injective(4 * a, 4 * b, 1);
    } else if a < 0x4000 {
        lemma_le_bytes_injective(4 * a + 1, 4 * b + 1, 2);
    } else if a < 0x4000_0000 {
        lemma_le_bytes_injective(4 * a + 2, 4 * b + 2, 4);
    } else {
        assert(compact_len(a).skip(1) =~= le_bytes(a, 4));
        assert(compact_len(b).skip(1) =~= le_bytes(b, 4));
        lemma_le_bytes_injective(a, b, 4);
    }
}

/// The encoding of a string followed by anything can be split in one way
/// only: no other string's encoding begins the same bytes.
pub proof fn lemma_str_bytes_unique(a: Seq<char>, rest_a: Seq<u8>, b: Seq<char>, rest_b: Seq<u8>)
    requires
        fits(a),
        fits(b),
        str_bytes(a) + rest_a == str_bytes(b) + rest_b,
    ensures
        a == b,
        rest_a == rest_b,
{
    let body_a = encode_utf8(a);
    let body_b = encode_utf8(b);
    assert(str_bytes(a) + rest_a =~= compact_len(body_a.len()) + (body_a + rest_a));
    assert(str_bytes(b) + rest_b =~= compact_len(body_b.len()) + (body_b + rest_b));
    lemma_compact_len_unique(body_a.len(), body_a + rest_a, body_b.len(), body_b + rest_b);
    lemma_concat_parts(body_a, rest_a, body_b, rest_b);
    encode_utf8_decode_utf8(a);
    encode_utf8_decode_utf8(b);
}

} // verus!
