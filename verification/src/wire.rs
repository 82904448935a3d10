//! The binary image format: a flat run of little-endian 16-bit words.

use byteorder::{ByteOrder, LittleEndian};
use vstd::prelude::*;

verus! {

/// The less significant byte of a word.
pub open spec fn low_byte(w: u16) -> u8 {
    (w % 256) as u8
}

/// The more significant byte of a word.
pub open spec fn high_byte(w: u16) -> u8 {
    (w / 256) as u8
}

/// The word whose less significant byte is `lo` and whose more significant byte is `hi`.
pub open spec fn word_of(lo: u8, hi: u8) -> u16 {
    (lo + 256 * hi) as u16
}

/// The image of a run of words: two bytes for each word, the less significant first.
pub open spec fn bytes_of(words: Seq<u16>) -> Seq<u8> {
    Seq::new(
        2 * words.len(),
        |i: int|
            if i % 2 == 0 {
                low_byte(words[i / 2])
            } else {
                high_byte(words[i / 2])
            },
    )
}

/// The words that an image holds: one for each complete pair of bytes. A
/// last odd byte belongs to no word.
pub open spec fn words_of(bytes: Seq<u8>) -> Seq<u16> {
    Seq::new(bytes.len() / 2, |i: int| word_of(bytes[2 * i], bytes[2 * i + 1]))
}

/// Reading an image back gives the words it was written from.
pub proof fn lemma_words_of_bytes_of(words: Seq<u16>)
    ensures
        words_of(bytes_of(words)) == words,
{
    let bytes = bytes_of(words);
    assert(bytes.len() / 2 == words.len());
    assert forall|i: int| 0 <= i < words.len() implies words_of(bytes)[i] == words[i] by {
        assert(bytes[2 * i] == low_byte(words[i]));
        assert(bytes[2 * i + 1] == high_byte(words[i]));
    }
    assert(words_of(bytes) =~= words);
}

/// The image of two runs of words, one after the other, is the two images
/// one after the other.
pub proof fn lemma_bytes_of_concat(a: Seq<u16>, b: Seq<u16>)
    ensures
        bytes_of(a + b) == bytes_of(a) + bytes_of(b),
{
    assert(bytes_of(a + b) =~= bytes_of(a) + bytes_of(b));
}

/// `byteorder::LittleEndian::write_u16` on a buffer of two bytes: the
/// buffer then holds the word's less significant byte, then its more
/// significant one.
#[verifier::external_body]
fn encode_word(w: u16) -> (pair: [u8; 2])
    ensures
        pair@[0] == low_byte(w),
        pair@[1] == high_byte(w),
{
    let mut pair = [0u8; 2];
    LittleEndian::write_u16(&mut pair, w);
    pair
}

/// `byteorder::LittleEndian::read_u16` on a buffer of two bytes: the word
/// whose less significant byte comes first.
#[verifier::external_body]
fn decode_word(pair: &[u8; 2]) -> (w: u16)
    ensures
        w == word_of(pair@[0], pair@[1]),
{
    LittleEndian::read_u16(pair)
}

/// Appends the two bytes of `w` to `out`.
pub fn push_word(out: &mut Vec<u8>, w: u16)
    ensures
        final(out)@ == old(out)@ + bytes_of(seq![w]),
{
    let pair = encode_word(w);
    out.push(pair[0]);
    out.push(pair[1]);
    assert(out@ =~= old(out)@ + bytes_of(seq![w]));
}

/// The word that the bytes at `2 * i` and `2 * i + 1` of `image` hold.
pub fn word_at(image: &[u8], i: usize) -> (w: u16)
    requires
        2 * i + 1 < image@.len(),
    ensures
        w == words_of(image@)[i as int],
{
    let len = image.len();
    assert(2 * i + 1 < len);
    let pair = [image[2 * i], image[2 * i + 1]];
    decode_word(&pair)
}

} // verus!
