use vstd::prelude::*;

verus! {

/// The prefix of every key under which an embedding is stored.
pub const KEY_PREFIX: &'static str = "embedding:";

/// The lowercase hexadecimal digits, by value.
pub const HEX_DIGITS: &'static str = "0123456789abcdef";

/// The MD5 digest of the UTF-8 encoding of a text.
pub uninterp spec fn md5_of(text: Seq<char>) -> Seq<u8>;

/// Relies on md5::compute: the 16-byte MD5 digest of the bytes it is given,
/// here the text's UTF-8 encoding.
#[verifier::external_body]
fn md5_digest(text: &str) -> (r: [u8; 16])
    ensures
        r@ == md5_of(text@),
{
    md5::compute(text.as_bytes()).0
}

/// Two lowercase hexadecimal digits per byte, high nibble first.
pub open spec fn hex_lower(b: Seq<u8>) -> Seq<char>
    decreases b.len(),
{
    if b.len() == 0 {
        seq![]
    } else {
        hex_lower(b.drop_last()) + seq![
            HEX_DIGITS@[b.last() as int / 16],
            HEX_DIGITS@[b.last() as int % 16],
        ]
    }
}

/// The store key for a document whose text has the MD5 digest `digest`.
pub fn key_for_digest(digest: &[u8; 16]) -> (r: String)
    ensures
        r@ == KEY_PREFIX@ + hex_lower(digest@),
{
    proof {
        reveal_strlit("0123456789abcdef");
    }
    let mut key = String::from_str(KEY_PREFIX);
    let mut i: usize = 0;
    while i < 16
        invariant
            i <= 16,
            digest@.len() == 16,
            HEX_DIGITS@.len() == 16,
            key@ == KEY_PREFIX@ + hex_lower(digest@.subrange(0, i as int)),
        decreases 16 - i,
    {
        let byte = digest[i];
        let high = (byte / 16) as usize;
        let low = (byte % 16) as usize;
        key.append(HEX_DIGITS.substring_char(high, high + 1));
        key.append(HEX_DIGITS.substring_char(low, low + 1));
        proof {
            let done = digest@.subrange(0, i + 1);
            assert(done.drop_last() =~= digest@.subrange(0, i as int));
            assert(HEX_DIGITS@.subrange(high as int, high + 1) =~= seq![HEX_DIGITS@[high as int]]);
            assert(HEX_DIGITS@.subrange(low as int, low + 1) =~= seq![HEX_DIGITS@[low as int]]);
            assert(key@ =~= KEY_PREFIX@ + hex_lower(done));
        }
        i = i + 1;
    }
    assert(digest@.subrange(0, 16) =~= digest@);
    key
}

/// The store key for a document's text: the prefix, then the MD5 digest of
/// the text in lowercase hexadecimal.
pub fn document_key(text: &str) -> (r: String)
    ensures
        r@ == KEY_PREFIX@ + hex_lower(md5_of(text@)),
{
    let digest = md5_digest(text);
    key_for_digest(&digest)
}

} // verus!
