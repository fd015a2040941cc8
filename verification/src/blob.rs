//! Blobs: binary values that storage keeps as upper-case hex text.
//!
//! A blob is the postcard encoding of a value, written out in hex. The hex
//! layer is stated here in full; postcard's decoding of plain values is named.
use vstd::prelude::*;
use vstd::utf8::{encode_utf8, is_ascii_chars, is_ascii_chars_encode_utf8};

verus! {

/// The value of one hex digit, as `hex` reads it (either case).
pub open spec fn spec_hex_digit(c: u8) -> Option<u8> {
    if 0x30 <= c <= 0x39 {
        Some((c - 0x30) as u8)
    } else if 0x41 <= c <= 0x46 {
        Some((c - 0x41 + 10) as u8)
    } else if 0x61 <= c <= 0x66 {
        Some((c - 0x61 + 10) as u8)
    } else {
        None
    }
}

/// Hex text to bytes: `None` for odd length or a character that is no hex digit.
pub open spec fn spec_hex_decode(text: Seq<u8>) -> Option<Seq<u8>>
    decreases text.len(),
{
    if text.len() % 2 != 0 {
        None
    } else if text.len() == 0 {
        Some(Seq::empty())
    } else {
        match (
            spec_hex_digit(text[0]),
            spec_hex_digit(text[1]),
            spec_hex_decode(text.subrange(2, text.len() as int)),
        ) {
            (Some(hi), Some(lo), Some(rest)) => Some(seq![(hi * 16 + lo) as u8] + rest),
            _ => None,
        }
    }
}

/// The upper-case hex digit for a value below 16.
pub open spec fn spec_hex_char_upper(v: u8) -> char {
    if v < 10 {
        (0x30 + v) as char
    } else {
        (0x41 + v - 10) as char
    }
}

/// Bytes to upper-case hex text, two digits per byte, high half first.
pub open spec fn spec_hex_encode_upper(bytes: Seq<u8>) -> Seq<char>
    decreases bytes.len(),
{
    if bytes.len() == 0 {
        Seq::empty()
    } else {
        seq![spec_hex_char_upper(bytes[0] / 16), spec_hex_char_upper(bytes[0] % 16)]
            + spec_hex_encode_upper(bytes.drop_first())
    }
}

/// The bytes of a blob stored as the text `s`.
pub open spec fn spec_blob_bytes(s: Seq<char>) -> Option<Seq<u8>> {
    spec_hex_decode(encode_utf8(s))
}

/// What `postcard::from_bytes::<Vec<i64>>` gives for these bytes.
pub uninterp spec fn postcard_words(bytes: Seq<u8>) -> Option<Seq<i64>>;

/// What `postcard::from_bytes::<[u8; 32]>` gives for these bytes: the first
/// 32 of them, one byte per element, the rest unread; nothing where there
/// are fewer.
pub open spec fn postcard_hash(bytes: Seq<u8>) -> Option<Seq<u8>> {
    if bytes.len() >= 32 {
        Some(bytes.take(32))
    } else {
        None
    }
}

/// What `postcard::to_allocvec` gives for a `Vec<i64>` (or a slice of words).
pub uninterp spec fn postcard_encode_words(words: Seq<i64>) -> Seq<u8>;

/// What `postcard::to_allocvec` gives for a `[u8; 32]`: its bytes as they
/// are, one per element.
pub open spec fn postcard_encode_hash(hash: Seq<u8>) -> Seq<u8> {
    hash
}

/// `hex::decode` on the UTF-8 bytes of `s`.
///
/// Trusted: `hex::decode` accepts an even number of hex digits of either case
/// and returns one byte per pair, high half first; any other input is an
/// error. The contract states exactly that, over the UTF-8 bytes of `s`.
#[verifier::external_body]
fn hex_decode(s: &String) -> (r: Option<Vec<u8>>)
    ensures
        match r {
            Some(b) => spec_hex_decode(encode_utf8(s@)) == Some(b@),
            None => spec_hex_decode(encode_utf8(s@)) is None,
        },
{
    hex::decode(s.as_str()).ok()
}

/// `hex::encode_upper`.
///
/// Trusted: `hex::encode_upper` writes each byte as two upper-case hex
/// digits, high half first.
#[verifier::external_body]
fn hex_encode_upper(bytes: &Vec<u8>) -> (r: String)
    ensures
        r@ == spec_hex_encode_upper(bytes@),
{
    hex::encode_upper(bytes)
}

/// `postcard::from_bytes::<Vec<i64>>`.
///
/// Trusted: the outcome depends on the bytes alone; it is named
/// [`postcard_words`]. Nothing else is stated of postcard's format.
#[verifier::external_body]
fn postcard_decode_words(bytes: &Vec<u8>) -> (r: Option<Vec<i64>>)
    ensures
        match r {
            Some(w) => postcard_words(bytes@) == Some(w@),
            None => postcard_words(bytes@) is None,
        },
{
    postcard::from_bytes::<Vec<i64>>(bytes).ok()
}

/// `postcard::from_bytes::<[u8; 32]>`.
///
/// Trusted: postcard reads a fixed-size array as its elements in turn, each
/// byte as itself, and leaves what follows unread; with fewer than 32 bytes
/// it fails. That is [`postcard_hash`].
#[verifier::external_body]
fn postcard_decode_hash(bytes: &Vec<u8>) -> (r: Option<[u8; 32]>)
    ensures
        match r {
            Some(h) => postcard_hash(bytes@) == Some(h@),
            None => postcard_hash(bytes@) is None,
        },
{
    postcard::from_bytes::<[u8; 32]>(bytes).ok()
}

/// `postcard::to_allocvec` on words.
///
/// Trusted: the encoding depends on the words alone; it is named
/// [`postcard_encode_words`]. `postcard` can only fail here on allocation,
/// where it aborts like any other allocation. What it writes,
/// `postcard::from_bytes` reads back as the same words.
#[verifier::external_body]
fn postcard_encode_words_vec(words: &Vec<i64>) -> (r: Vec<u8>)
    ensures
        r@ == postcard_encode_words(words@),
        postcard_words(r@) == Some(words@),
{
    postcard::to_allocvec(words).unwrap()
}

/// `postcard::to_allocvec` on a 32-byte hash.
///
/// Trusted: postcard writes a fixed-size array as its elements in turn, each
/// byte as itself, with no length before them; that is
/// [`postcard_encode_hash`]. It can only fail on allocation, where it aborts
/// like any other allocation.
#[verifier::external_body]
fn postcard_encode_hash_array(hash: &[u8; 32]) -> (r: Vec<u8>)
    ensures
        r@ == postcard_encode_hash(hash@),
{
    postcard::to_allocvec(hash).unwrap()
}

/// The bytes of the blob stored as the text `s`; `None` where `s` is no hex.
pub fn blob_bytes(s: &String) -> (r: Option<Vec<u8>>)
    ensures
        match r {
            Some(b) => spec_blob_bytes(s@) == Some(b@),
            None => spec_blob_bytes(s@) is None,
        },
{
    hex_decode(s)
}

/// The words held in a blob.
pub open spec fn spec_decode_words(s: Seq<char>) -> Option<Seq<i64>> {
    match spec_blob_bytes(s) {
        Some(b) => postcard_words(b),
        None => None,
    }
}

/// The hash held in a blob.
pub open spec fn spec_decode_hash(s: Seq<char>) -> Option<Seq<u8>> {
    match spec_blob_bytes(s) {
        Some(b) => postcard_hash(b),
        None => None,
    }
}

/// Decodes the words held in a blob.
pub fn decode_words(s: &String) -> (r: Option<Vec<i64>>)
    ensures
        match r {
            Some(w) => spec_decode_words(s@) == Some(w@),
            None => spec_decode_words(s@) is None,
        },
{
    match blob_bytes(s) {
        Some(b) => postcard_decode_words(&b),
        None => None,
    }
}

/// Decodes the hash held in a blob.
pub fn decode_hash(s: &String) -> (r: Option<[u8; 32]>)
    ensures
        match r {
            Some(h) => spec_decode_hash(s@) == Some(h@),
            None => spec_decode_hash(s@) is None,
        },
{
    match blob_bytes(s) {
        Some(b) => postcard_decode_hash(&b),
        None => None,
    }
}

/// The blob text for some words.
pub open spec fn spec_encode_words(words: Seq<i64>) -> Seq<char> {
    spec_hex_encode_upper(postcard_encode_words(words))
}

/// The blob text for a hash.
pub open spec fn spec_encode_hash(hash: Seq<u8>) -> Seq<char> {
    spec_hex_encode_upper(postcard_encode_hash(hash))
}

/// The blob text for some bytes that are already encoded; reading it back
/// gives the same bytes.
pub fn encode_bytes(bytes: &Vec<u8>) -> (r: String)
    ensures
        r@ == spec_hex_encode_upper(bytes@),
        spec_blob_bytes(r@) == Some(bytes@),
{
    proof {
        lemma_blob_roundtrip(bytes@);
    }
    hex_encode_upper(bytes)
}

/// The blob text for some words; reading it back gives the same words.
pub fn encode_words(words: &Vec<i64>) -> (r: String)
    ensures
        r@ == spec_encode_words(words@),
        spec_decode_words(r@) == Some(words@),
{
    let b = postcard_encode_words_vec(words);
    proof {
        lemma_blob_roundtrip(b@);
    }
    hex_encode_upper(&b)
}

/// The blob text for a hash; reading it back gives the same hash.
pub fn encode_hash(hash: &[u8; 32]) -> (r: String)
    ensures
        r@ == spec_encode_hash(hash@),
        spec_decode_hash(r@) == Some(hash@),
{
    let b = postcard_encode_hash_array(hash);
    proof {
        lemma_blob_roundtrip(b@);
    }
    hex_encode_upper(&b)
}

/// The bytes of the upper-case hex digit for a value below 16.
pub open spec fn spec_hex_byte_upper(v: u8) -> u8 {
    if v < 10 {
        (0x30 + v) as u8
    } else {
        (0x41 + v - 10) as u8
    }
}

/// Bytes to the bytes of their upper-case hex text.
pub open spec fn spec_hex_bytes_upper(bytes: Seq<u8>) -> Seq<u8>
    decreases bytes.len(),
{
    if bytes.len() == 0 {
        Seq::empty()
    } else {
        seq![spec_hex_byte_upper(bytes[0] / 16), spec_hex_byte_upper(bytes[0] % 16)]
            + spec_hex_bytes_upper(bytes.drop_first())
    }
}

proof fn lemma_hex_text_ascii(bytes: Seq<u8>)
    ensures
        spec_hex_encode_upper(bytes).len() == 2 * bytes.len(),
        spec_hex_bytes_upper(bytes).len() == 2 * bytes.len(),
        is_ascii_chars(spec_hex_encode_upper(bytes)),
        forall|i: int|
            0 <= i < 2 * bytes.len() ==> (#[trigger] spec_hex_encode_upper(bytes)[i]) as u8
                == spec_hex_bytes_upper(bytes)[i],
    decreases bytes.len(),
{
    if bytes.len() > 0 {
        let rest = bytes.drop_first();
        lemma_hex_text_ascii(rest);
        let t = spec_hex_encode_upper(bytes);
        let u = spec_hex_bytes_upper(bytes);
        let hi = bytes[0] / 16;
        let lo = bytes[0] % 16;
        assert(spec_hex_char_upper(hi) as u8 == spec_hex_byte_upper(hi));
        assert(spec_hex_char_upper(lo) as u8 == spec_hex_byte_upper(lo));
        assert forall|i: int| 0 <= i < t.len() implies '\0' <= #[trigger] t[i] <= '\u{7f}' by {
            if i >= 2 {
                assert(t[i] == spec_hex_encode_upper(rest)[i - 2]);
            }
        }
        assert forall|i: int| 0 <= i < 2 * bytes.len() implies (#[trigger] t[i]) as u8 == u[i] by {
            if i >= 2 {
                assert(t[i] == spec_hex_encode_upper(rest)[i - 2]);
                assert(u[i] == spec_hex_bytes_upper(rest)[i - 2]);
            }
        }
    }
}

proof fn lemma_hex_bytes_decode(bytes: Seq<u8>)
    ensures
        spec_hex_decode(spec_hex_bytes_upper(bytes)) == Some(bytes),
    decreases bytes.len(),
{
    if bytes.len() > 0 {
        let rest = bytes.drop_first();
        lemma_hex_bytes_decode(rest);
        let u = spec_hex_bytes_upper(bytes);
        assert(u.subrange(2, u.len() as int) =~= spec_hex_bytes_upper(rest));
        let hi = bytes[0] / 16;
        let lo = bytes[0] % 16;
        assert(spec_hex_digit(spec_hex_byte_upper(hi)) == Some(hi));
        assert(spec_hex_digit(spec_hex_byte_upper(lo)) == Some(lo));
        assert((hi * 16 + lo) as u8 == bytes[0]);
        assert(seq![bytes[0]] + rest =~= bytes);
    }
}

/// Writing bytes as a blob and reading the blob back gives the same bytes.
pub proof fn lemma_blob_roundtrip(bytes: Seq<u8>)
    ensures
        spec_blob_bytes(spec_hex_encode_upper(bytes)) == Some(bytes),
{
    let t = spec_hex_encode_upper(bytes);
    lemma_hex_text_ascii(bytes);
    is_ascii_chars_encode_utf8(t);
    assert(encode_utf8(t) =~= spec_hex_bytes_upper(bytes));
    lemma_hex_bytes_decode(bytes);
}

} // verus!
