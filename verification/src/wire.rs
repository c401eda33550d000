//! 32-bit words as four bytes, least significant byte first.
//!
//! Both files of the library, the model and the spectral cube, are sequences of
//! such words, on every machine.

use vstd::prelude::*;

verus! {

/// The word that four bytes stand for.
pub open spec fn word(b0: u8, b1: u8, b2: u8, b3: u8) -> u32 {
    (b0 + 256 * b1 + 65536 * b2 + 16777216 * b3) as u32
}

/// Byte `k` of a word, counted from the least significant one.
pub open spec fn byte_of(w: u32, k: int) -> u8 {
    if k == 0 {
        (w % 256) as u8
    } else if k == 1 {
        (w / 256 % 256) as u8
    } else if k == 2 {
        (w / 65536 % 256) as u8
    } else {
        (w / 16777216) as u8
    }
}

/// The word that stands at offset `at` of `bytes`.
pub open spec fn word_at(bytes: Seq<u8>, at: int) -> u32
    recommends
        0 <= at,
        at + 4 <= bytes.len(),
{
    word(bytes[at], bytes[at + 1], bytes[at + 2], bytes[at + 3])
}

/// The `count` words that follow each other from offset `at` of `bytes`.
pub open spec fn words_at(bytes: Seq<u8>, at: int, count: nat) -> Seq<u32>
    recommends
        0 <= at,
        at + 4 * count <= bytes.len(),
{
    Seq::new(count, |i: int| word_at(bytes, at + 4 * i))
}

/// The bytes of a sequence of words.
pub open spec fn bytes_of(words: Seq<u32>) -> Seq<u8> {
    Seq::new(4 * words.len(), |i: int| byte_of(words[i / 4], i % 4))
}

/// The four bytes of a word stand for that word.
pub proof fn lemma_word_of_bytes(w: u32)
    ensures
        word(byte_of(w, 0), byte_of(w, 1), byte_of(w, 2), byte_of(w, 3)) == w,
{
}

/// The bytes of the word that four bytes stand for are those four bytes.
pub proof fn lemma_bytes_of_word(b0: u8, b1: u8, b2: u8, b3: u8)
    ensures
        byte_of(word(b0, b1, b2, b3), 0) == b0,
        byte_of(word(b0, b1, b2, b3), 1) == b1,
        byte_of(word(b0, b1, b2, b3), 2) == b2,
        byte_of(word(b0, b1, b2, b3), 3) == b3,
{
    let x: int = b0 + 256 * b1 + 65536 * b2 + 16777216 * b3;
    let low: int = b0 + 256 * b1;
    let high: int = b2 + 256 * b3;
    assert(word(b0, b1, b2, b3) == x);
    assert(x == 65536 * high + low && 0 <= low < 65536);
    assert(x / 65536 == high);
    assert(x / 256 == 256 * high + b1);
    assert(x / 16777216 == b3);
}

/// Byte `k` of word `i` stands at place `4 * i + k` among the bytes of `words`.
pub proof fn lemma_byte_at(words: Seq<u32>, i: int, k: int)
    requires
        0 <= i < words.len(),
        0 <= k < 4,
    ensures
        bytes_of(words)[4 * i + k] == byte_of(words[i], k),
{
    assert((4 * i + k) / 4 == i && (4 * i + k) % 4 == k);
}

/// Reading back the bytes of `words`, wherever they stand in a longer sequence,
/// gives `words`.
pub proof fn lemma_words_of_bytes(before: Seq<u8>, words: Seq<u32>, after: Seq<u8>)
    ensures
        words_at(before + bytes_of(words) + after, before.len() as int, words.len()) == words,
{
    let all = before + bytes_of(words) + after;
    let start = before.len() as int;
    assert forall|i: int| 0 <= i < words.len() implies word_at(all, start + 4 * i) == words[i] by {
        lemma_byte_at(words, i, 0);
        lemma_byte_at(words, i, 1);
        lemma_byte_at(words, i, 2);
        lemma_byte_at(words, i, 3);
        assert(all[start + 4 * i] == bytes_of(words)[4 * i + 0]);
        assert(all[start + 4 * i + 1] == bytes_of(words)[4 * i + 1]);
        assert(all[start + 4 * i + 2] == bytes_of(words)[4 * i + 2]);
        assert(all[start + 4 * i + 3] == bytes_of(words)[4 * i + 3]);
        lemma_word_of_bytes(words[i]);
    }
    assert(words_at(all, start, words.len()) =~= words);
}

/// Writing out the words read from a stretch of bytes gives that stretch.
pub proof fn lemma_bytes_of_words(bytes: Seq<u8>, at: int, count: nat)
    requires
        0 <= at,
        at + 4 * count <= bytes.len(),
    ensures
        bytes_of(words_at(bytes, at, count)) == bytes.subrange(at, at + 4 * count),
{
    let words = words_at(bytes, at, count);
    let stretch = bytes.subrange(at, at + 4 * count);
    assert forall|j: int| 0 <= j < 4 * count implies bytes_of(words)[j] == stretch[j] by {
        let i = j / 4;
        let k = j % 4;
        assert(j == 4 * i + k);
        lemma_byte_at(words, i, k);
        lemma_bytes_of_word(
            bytes[at + 4 * i],
            bytes[at + 4 * i + 1],
            bytes[at + 4 * i + 2],
            bytes[at + 4 * i + 3],
        );
    }
    assert(bytes_of(words) =~= stretch);
}

/// Reads the word at offset `at`.
pub(crate) fn read_word(bytes: &[u8], at: usize) -> (w: u32)
    requires
        at + 4 <= bytes@.len(),
    ensures
        w == word_at(bytes@, at as int),
{
    let b0: u32 = bytes[at] as u32;
    let b1: u32 = bytes[at + 1] as u32;
    let b2: u32 = bytes[at + 2] as u32;
    let b3: u32 = bytes[at + 3] as u32;
    b0 + 256 * b1 + 65536 * b2 + 16777216 * b3
}

/// Reads `count` words from offset `at` on.
pub(crate) fn read_words(bytes: &[u8], at: usize, count: usize) -> (words: Vec<u32>)
    requires
        at + 4 * count <= bytes@.len(),
    ensures
        words@ == words_at(bytes@, at as int, count as nat),
{
    let mut words: Vec<u32> = Vec::new();
    let mut i: usize = 0;
    let total: usize = bytes.len();
    while i < count
        invariant
            i <= count,
            at + 4 * count <= total,
            total == bytes@.len(),
            words@ == words_at(bytes@, at as int, i as nat),
        decreases count - i,
    {
        let w: u32 = read_word(bytes, at + 4 * i);
        words.push(w);
        i = i + 1;
        assert(words@ =~= words_at(bytes@, at as int, i as nat));
    }
    words
}

/// Appends the four bytes of `w` to `out`.
pub(crate) fn append_word(out: &mut Vec<u8>, w: u32)
    ensures
        final(out)@ == old(out)@ + bytes_of(seq![w]),
{
    out.push((w % 256) as u8);
    out.push((w / 256 % 256) as u8);
    out.push((w / 65536 % 256) as u8);
    out.push((w / 16777216) as u8);
    assert(out@ =~= old(out)@ + bytes_of(seq![w]));
}

/// The bytes of a sequence of words are those of its parts, one after the other.
pub proof fn lemma_bytes_of_concat(first: Seq<u32>, second: Seq<u32>)
    ensures
        bytes_of(first + second) == bytes_of(first) + bytes_of(second),
{
    let whole = bytes_of(first + second);
    let parts = bytes_of(first) + bytes_of(second);
    assert forall|j: int| 0 <= j < whole.len() implies #[trigger] whole[j] == parts[j] by {
        let i = j / 4;
        let k = j % 4;
        assert(j == 4 * i + k);
        lemma_byte_at(first + second, i, k);
        if i < first.len() {
            lemma_byte_at(first, i, k);
        } else {
            lemma_byte_at(second, i - first.len(), k);
            assert(parts[j] == bytes_of(second)[j - 4 * first.len()]);
        }
    }
    assert(whole =~= parts);
}

/// Appends the bytes of `words` to `out`.
pub fn append_words(out: &mut Vec<u8>, words: &[u32])
    ensures
        final(out)@ == old(out)@ + bytes_of(words@),
{
    let mut i: usize = 0;
    assert(out@ =~= old(out)@ + bytes_of(words@.take(0)));
    while i < words.len()
        invariant
            i <= words@.len(),
            out@ == old(out)@ + bytes_of(words@.take(i as int)),
        decreases words@.len() - i,
    {
        append_word(out, words[i]);
        proof {
            lemma_bytes_of_concat(words@.take(i as int), seq![words@[i as int]]);
            assert(words@.take(i as int) + seq![words@[i as int]] =~= words@.take(i + 1));
            assert(out@ =~= old(out)@ + bytes_of(words@.take(i + 1)));
        }
        i = i + 1;
    }
    assert(words@.take(i as int) =~= words@);
}

/// The bytes of `words`, four for each word.
pub fn encode_words(words: &[u32]) -> (out: Vec<u8>)
    ensures
        out@ == bytes_of(words@),
        out@.len() == 4 * words@.len(),
        words_at(out@, 0, words@.len()) == words@,
{
    let mut out: Vec<u8> = Vec::new();
    append_words(&mut out, words);
    proof {
        let empty = Seq::<u8>::empty();
        assert(out@ =~= bytes_of(words@));
        assert(out@ =~= empty + bytes_of(words@) + empty);
        lemma_words_of_bytes(empty, words@, empty);
    }
    out
}

/// The words that `bytes` hold, if they hold whole words only.
pub fn decode_words(bytes: &[u8]) -> (r: Option<Vec<u32>>)
    ensures
        bytes@.len() % 4 != 0 ==> r is None,
        bytes@.len() % 4 == 0 ==> r is Some && r->Some_0@ == words_at(
            bytes@,
            0,
            (bytes@.len() / 4) as nat,
        ) && bytes_of(r->Some_0@) == bytes@,
{
    if bytes.len() % 4 != 0 {
        None
    } else {
        proof {
            lemma_bytes_of_words(bytes@, 0, (bytes@.len() / 4) as nat);
            assert(bytes@.subrange(0, bytes@.len() as int) =~= bytes@);
        }
        Some(read_words(bytes, 0, bytes.len() / 4))
    }
}

} // verus!
