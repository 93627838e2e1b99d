use vstd::prelude::*;
use vstd::utf8::encode_utf8;
use sha2::{Digest, Sha256};

verus! {

/// SHA-256 digest of a byte string, as the sha2 crate computes it.
pub uninterp spec fn sha256_digest(data: Seq<u8>) -> Seq<u8>;

/// Lower-case hexadecimal digit for a value below 16.
pub open spec fn hex_digit(v: int) -> char {
    if v < 10 { (('0' as int) + v) as char } else { (('a' as int) + v - 10) as char }
}

/// Lower-case hexadecimal text of a byte string, two digits per byte, high
/// nibble first.
pub open spec fn hex_lower(data: Seq<u8>) -> Seq<char>
    decreases data.len(),
{
    if data.len() == 0 {
        seq![]
    } else {
        hex_lower(data.drop_last()) + seq![
            hex_digit((data.last() / 16) as int),
            hex_digit((data.last() % 16) as int),
        ]
    }
}

/// A lower-case hexadecimal digit: 0-9 or a-f.
pub open spec fn is_hex_digit(c: char) -> bool {
    ('0' <= c && c <= '9') || ('a' <= c && c <= 'f')
}

/// Hex text has two digits per byte, all lower-case hexadecimal digits.
pub proof fn lemma_hex_lower_shape(data: Seq<u8>)
    ensures
        hex_lower(data).len() == 2 * data.len(),
        forall|i: int| 0 <= i < hex_lower(data).len() ==> is_hex_digit(#[trigger] hex_lower(data)[i]),
    decreases data.len(),
{
    if data.len() > 0 {
        lemma_hex_lower_shape(data.drop_last());
        let pre = hex_lower(data.drop_last());
        let tail = seq![hex_digit((data.last() / 16) as int), hex_digit((data.last() % 16) as int)];
        assert forall|i: int| 0 <= i < hex_lower(data).len() implies is_hex_digit(#[trigger] hex_lower(data)[i]) by {
            if i < pre.len() {
                assert(hex_lower(data)[i] == pre[i]);
            } else {
                assert(hex_lower(data)[i] == tail[i - pre.len()]);
            }
        }
    }
}

/// Byte `k` of the little-endian encoding of `v`.
pub open spec fn le_byte(v: u64, k: int) -> u8 {
    ((v >> ((8 * k) as u64)) & 0xff) as u8
}

/// The eight bytes of `v` in little-endian order (`i64::to_le_bytes`).
pub open spec fn le_bytes(v: i64) -> Seq<u8> {
    Seq::new(8, |k: int| le_byte(v as u64, k))
}

/// Cache key of a thumbnail: the first 16 bytes of
/// SHA-256(UTF-8 path ++ little-endian mtime), in lower-case hex.
pub open spec fn thumb_key(path: Seq<char>, mtime: i64) -> Seq<char> {
    hex_lower(sha256_digest(encode_utf8(path) + le_bytes(mtime)).take(16))
}

/// Calls `Sha256::digest` of the sha2 crate. The contract names the digest
/// and states its length of 32 bytes.
#[verifier::external_body]
fn sha256(data: &[u8]) -> (r: Vec<u8>)
    ensures
        r@ == sha256_digest(data@),
        r@.len() == 32,
{
    Sha256::digest(data).to_vec()
}

/// Calls `hex::encode`, which writes each byte as two lower-case hex
/// digits, high nibble first.
#[verifier::external_body]
fn hex_encode(data: &[u8]) -> (r: String)
    ensures
        r@ == hex_lower(data@),
{
    hex::encode(data)
}

/// The little-endian bytes of `v`.
pub fn i64_le_bytes(v: i64) -> (r: Vec<u8>)
    ensures
        r@ == le_bytes(v),
{
    let u = v as u64;
    let mut out: Vec<u8> = Vec::new();
    let mut k: u64 = 0;
    while k < 8
        invariant
            k <= 8,
            u == v as u64,
            out@.len() == k,
            forall|j: int| 0 <= j < k ==> #[trigger] out@[j] == le_byte(u, j),
        decreases 8 - k,
    {
        let b = ((u >> (8 * k)) & 0xff) as u8;
        assert(b == le_byte(u, k as int));
        out.push(b);
        k = k + 1;
    }
    assert(out@ =~= le_bytes(v));
    out
}

/// Cache key for a thumbnail: sha256(path + mtime), hex-encoded first 32
/// chars.
pub fn thumb_cache_key(path: &str, mtime: i64) -> (r: String)
    ensures
        r@ == thumb_key(path@, mtime),
        r@.len() == 32,
        forall|i: int| 0 <= i < r@.len() ==> is_hex_digit(#[trigger] r@[i]),
{
    let mut data: Vec<u8> = Vec::new();
    let bytes = path.as_bytes();
    let mut i: usize = 0;
    while i < bytes.len()
        invariant
            i <= bytes@.len(),
            data@ == bytes@.take(i as int),
        decreases bytes@.len() - i,
    {
        data.push(bytes[i]);
        i = i + 1;
        assert(data@ =~= bytes@.take(i as int));
    }
    assert(bytes@.take(i as int) =~= bytes@);
    let le = i64_le_bytes(mtime);
    let ghost prefix = data@;
    let mut j: usize = 0;
    while j < 8
        invariant
            j <= 8,
            le@.len() == 8,
            data@ == prefix + le@.take(j as int),
        decreases 8 - j,
    {
        data.push(le[j]);
        j = j + 1;
        assert(data@ =~= prefix + le@.take(j as int));
    }
    assert(le@.take(8) =~= le@);
    let digest = sha256(data.as_slice());
    let mut head: Vec<u8> = Vec::new();
    let mut k: usize = 0;
    while k < 16
        invariant
            k <= 16,
            digest@.len() == 32,
            head@ == digest@.take(k as int),
        decreases 16 - k,
    {
        head.push(digest[k]);
        k = k + 1;
        assert(head@ =~= digest@.take(k as int));
    }
    proof {
        lemma_hex_lower_shape(head@);
    }
    hex_encode(head.as_slice())
}

} // verus!
