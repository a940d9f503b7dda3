//! Digests and message authentication.

use crate::text;
use vstd::prelude::*;

verus! {

/// The SHA-256 digest of some bytes.
pub uninterp spec fn sha256(data: Seq<u8>) -> Seq<u8>;

/// `sha2::Sha256::digest`. The digest is a function of the bytes alone, named
/// [`sha256`], and is 32 bytes long.
#[verifier::external_body]
pub(crate) fn sha256_of(data: &[u8]) -> (r: Vec<u8>)
    ensures
        r@ == sha256(data@),
        r@.len() == 32,
{
    <sha2::Sha256 as sha2::Digest>::digest(data).to_vec()
}

/// The lower-case hexadecimal digit of value `n`.
pub open spec fn hex_digit(n: int) -> char {
    if n < 10 {
        (0x30 + n) as char
    } else {
        (0x57 + n) as char
    }
}

/// Two lower-case hexadecimal digits for each byte.
pub open spec fn hex_text(data: Seq<u8>) -> Seq<char>
    decreases data.len(),
{
    if data.len() == 0 {
        Seq::empty()
    } else {
        hex_text(data.drop_last()).push(hex_digit(data.last() as int / 16)).push(
            hex_digit(data.last() as int % 16),
        )
    }
}

/// `hex::encode`, which writes each byte as two lower-case hexadecimal digits,
/// the high half first.
#[verifier::external_body]
pub(crate) fn hex_of(data: &[u8]) -> (r: String)
    ensures
        r@ == hex_text(data@),
{
    hex::encode(data)
}

/// A hexadecimal rendering has two characters for each byte.
pub proof fn lemma_hex_len(data: Seq<u8>)
    ensures
        hex_text(data).len() == 2 * data.len(),
    decreases data.len(),
{
    if data.len() > 0 {
        lemma_hex_len(data.drop_last());
    }
}

/// A hexadecimal rendering is made of lower-case hexadecimal digits.
pub proof fn lemma_hex_digits(data: Seq<u8>)
    ensures
        forall|i: int|
            0 <= i < hex_text(data).len() ==> '0' <= #[trigger] hex_text(data)[i] <= '9' || 'a'
                <= hex_text(data)[i] <= 'f',
    decreases data.len(),
{
    if data.len() > 0 {
        let front = hex_text(data.drop_last());
        lemma_hex_digits(data.drop_last());
        assert forall|i: int| 0 <= i < hex_text(data).len() implies '0' <= #[trigger] hex_text(
            data,
        )[i] <= '9' || 'a' <= hex_text(data)[i] <= 'f' by {
            if i < front.len() {
                assert(hex_text(data)[i] == front[i]);
            } else if i == front.len() {
                assert(hex_text(data)[i] == hex_digit(data.last() as int / 16));
            } else {
                assert(hex_text(data)[i] == hex_digit(data.last() as int % 16));
            }
        }
    }
}

/// Different bytes have different hexadecimal renderings.
pub proof fn lemma_hex_injective(a: Seq<u8>, b: Seq<u8>)
    requires
        hex_text(a) == hex_text(b),
    ensures
        a == b,
    decreases a.len(),
{
    lemma_hex_len(a);
    lemma_hex_len(b);
    if a.len() > 0 {
        let n = hex_text(a).len() as int;
        assert(hex_text(a)[n - 1] == hex_digit(a.last() as int % 16));
        assert(hex_text(b)[n - 1] == hex_digit(b.last() as int % 16));
        assert(hex_text(a)[n - 2] == hex_digit(a.last() as int / 16));
        assert(hex_text(b)[n - 2] == hex_digit(b.last() as int / 16));
        assert(hex_text(a).subrange(0, n - 2) =~= hex_text(a.drop_last()));
        assert(hex_text(b).subrange(0, n - 2) =~= hex_text(b.drop_last()));
        lemma_hex_injective(a.drop_last(), b.drop_last());
        assert(a =~= a.drop_last().push(a.last()));
        assert(b =~= b.drop_last().push(b.last()));
    } else {
        assert(a =~= b);
    }
}

/// The first `n` hexadecimal digits of the SHA-256 digest of a text.
pub open spec fn short_digest(s: Seq<char>, n: nat) -> Seq<char> {
    hex_text(sha256(vstd::utf8::encode_utf8(s))).subrange(0, n as int)
}

/// The first `n` hexadecimal digits of the SHA-256 digest of a text.
pub fn hash_and_truncate(s: &str, n: usize) -> (r: String)
    requires
        n <= 64,
    ensures
        r@ == short_digest(s@, n as nat),
{
    let d = sha256_of(s.as_bytes());
    let h = hex_of(d.as_slice());
    let v = text::chars_of(h.as_str());
    proof {
        lemma_hex_len(d@);
    }
    text::string_of(&v, 0, n)
}

// ---------------------------------------------------------------------------
// HMAC-SHA256
// ---------------------------------------------------------------------------

/// Block size of SHA-256 in bytes.
pub const BLOCK: usize = 64;

/// The key, hashed where it is longer than a block, filled up with zeros.
pub open spec fn block_key(key: Seq<u8>) -> Seq<u8> {
    let k = if key.len() > BLOCK {
        sha256(key)
    } else {
        key
    };
    k + Seq::new((BLOCK - k.len()) as nat, |i: int| 0u8)
}

/// Every byte of the key, combined with `pad`.
pub open spec fn padded_key(key: Seq<u8>, pad: u8) -> Seq<u8> {
    block_key(key).map_values(|b: u8| b ^ pad)
}

/// The HMAC-SHA256 tag of `data` under `key`.
pub open spec fn hmac(key: Seq<u8>, data: Seq<u8>) -> Seq<u8> {
    sha256(padded_key(key, 0x5c) + sha256(padded_key(key, 0x36) + data))
}

fn block_key_exec(key: &[u8]) -> (r: Vec<u8>)
    ensures
        r@ == block_key(key@),
        r@.len() == BLOCK,
{
    let mut k: Vec<u8> = if key.len() > BLOCK {
        sha256_of(key)
    } else {
        vstd::slice::slice_to_vec(key)
    };
    let ghost start = k@;
    assert(start + Seq::new(0, |i: int| 0u8) =~= start);
    while k.len() < BLOCK
        invariant
            start.len() <= k@.len() <= BLOCK,
            k@ == start + Seq::new((k@.len() - start.len()) as nat, |i: int| 0u8),
        decreases BLOCK - k@.len(),
    {
        let ghost before = k@;
        k.push(0);
        assert(k@ =~= start + Seq::new((k@.len() - start.len()) as nat, |i: int| 0u8));
    }
    k
}

fn padded_key_exec(key: &[u8], pad: u8) -> (r: Vec<u8>)
    ensures
        r@ == padded_key(key@, pad),
{
    let k = block_key_exec(key);
    let mut out: Vec<u8> = Vec::new();
    let mut i: usize = 0;
    while i < k.len()
        invariant
            i <= k@.len(),
            out@ == k@.subrange(0, i as int).map_values(|b: u8| b ^ pad),
        decreases k@.len() - i,
    {
        out.push(k[i] ^ pad);
        i = i + 1;
        assert(out@ =~= k@.subrange(0, i as int).map_values(|b: u8| b ^ pad));
    }
    assert(k@.subrange(0, i as int) =~= k@);
    out
}

/// Adds bytes to the end of `out`.
pub fn append_bytes(out: &mut Vec<u8>, data: &[u8])
    ensures
        final(out)@ == old(out)@ + data@,
{
    let ghost start = out@;
    let mut i: usize = 0;
    assert(start + data@.subrange(0, 0) =~= start);
    while i < data.len()
        invariant
            i <= data@.len(),
            out@ == start + data@.subrange(0, i as int),
        decreases data@.len() - i,
    {
        out.push(data[i]);
        i = i + 1;
        assert(out@ =~= start + data@.subrange(0, i as int));
    }
    assert(data@.subrange(0, i as int) =~= data@);
}

/// The signature of `data` under `key`, in hexadecimal.
pub open spec fn signature(key: Seq<char>, data: Seq<u8>) -> Seq<char> {
    hex_text(hmac(vstd::utf8::encode_utf8(key), data))
}

/// Signs `data` with HMAC-SHA256.
pub fn hmac_sign(key: &str, data: &[u8]) -> (r: String)
    ensures
        r@ == signature(key@, data@),
{
    let mut inner = padded_key_exec(key.as_bytes(), 0x36);
    append_bytes(&mut inner, data);
    let mut outer = padded_key_exec(key.as_bytes(), 0x5c);
    append_bytes(&mut outer, sha256_of(inner.as_slice()).as_slice());
    hex_of(sha256_of(outer.as_slice()).as_slice())
}

/// Whether `tag` is the signature of `data` under `key`.
pub fn hmac_verify(key: &str, data: &[u8], tag: &str) -> (r: bool)
    ensures
        r == (tag@ == signature(key@, data@)),
{
    text::text_eq(hmac_sign(key, data).as_str(), tag)
}

/// A signature is the HMAC of the data: the digest of the outer key and the digest of the
/// inner key and the data, where the keys are the signing key's bytes, filled up with
/// zeros to a block or digested where there are more, each combined with 0x5c and 0x36.
pub proof fn signatures_are_hmacs(
    key: Seq<char>,
    data: Seq<u8>,
    k: Seq<u8>,
    inner: Seq<u8>,
    outer: Seq<u8>,
)
    requires
        k == (if vstd::utf8::encode_utf8(key).len() > 64 {
            sha256(vstd::utf8::encode_utf8(key))
        } else {
            vstd::utf8::encode_utf8(key)
        }),
        k.len() <= 64,
        inner.len() == 64,
        outer.len() == 64,
        forall|i: int| 0 <= i < k.len() ==> #[trigger] inner[i] == k[i] ^ 0x36,
        forall|i: int| 0 <= i < k.len() ==> #[trigger] outer[i] == k[i] ^ 0x5c,
        forall|i: int| k.len() <= i < 64 ==> #[trigger] inner[i] == 0u8 ^ 0x36,
        forall|i: int| k.len() <= i < 64 ==> #[trigger] outer[i] == 0u8 ^ 0x5c,
    ensures
        signature(key, data) == hex_text(sha256(outer + sha256(inner + data))),
{
    let bytes = vstd::utf8::encode_utf8(key);
    assert(padded_key(bytes, 0x36) =~= inner);
    assert(padded_key(bytes, 0x5c) =~= outer);
}

/// The hexadecimal text of bytes has two characters for each: the high half of the byte and
/// then the low half, each as a digit or a small letter.
pub proof fn bytes_are_two_digits_each(data: Seq<u8>, i: int)
    requires
        0 <= i < data.len(),
    ensures
        hex_text(data).len() == 2 * data.len(),
        ({
            let high = data[i] as int / 16;
            &&& high < 10 ==> hex_text(data)[2 * i] == (0x30 + high) as char
            &&& high >= 10 ==> hex_text(data)[2 * i] == (0x61 + (high - 10)) as char
        }),
        ({
            let low = data[i] as int % 16;
            &&& low < 10 ==> hex_text(data)[2 * i + 1] == (0x30 + low) as char
            &&& low >= 10 ==> hex_text(data)[2 * i + 1] == (0x61 + (low - 10)) as char
        }),
    decreases data.len(),
{
    lemma_hex_len(data);
    let d = data.drop_last();
    lemma_hex_len(d);
    if i < d.len() {
        assert(d[i] == data[i]);
        bytes_are_two_digits_each(d, i);
    }
}

/// The short digest of a text is the beginning of the digest of its bytes.
pub proof fn short_digests_begin_the_digest(s: Seq<char>, n: nat, i: int)
    requires
        n <= 64,
        sha256(vstd::utf8::encode_utf8(s)).len() == 32,
        0 <= i < n,
    ensures
        short_digest(s, n).len() == n,
        short_digest(s, n)[i] == hex_text(sha256(vstd::utf8::encode_utf8(s)))[i],
{
    lemma_hex_len(sha256(vstd::utf8::encode_utf8(s)));
}

} // verus!
