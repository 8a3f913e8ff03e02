//! Bytes of a line: splitting at white space, upper case, comparison.
//!
//! Both channels that carry commands are ASCII and line-oriented, so a line
//! is read as bytes. White space is the space and the five control bytes
//! from tab to carriage return; upper case changes the letters `a` to `z`
//! and nothing else.

use vstd::prelude::*;
use vstd::string::StringSliceAdditionalSpecFns;

verus! {

/// The bytes that separate the words of a line.
pub open spec fn is_space(b: u8) -> bool {
    b == 0x20 || (0x09 <= b && b <= 0x0d)
}

/// Where the word that starts at `from` ends: the first position at or
/// after `from` that holds white space, or the end of the line.
pub open spec fn word_end(line: Seq<u8>, from: int) -> int
    decreases line.len() - from,
{
    if 0 <= from < line.len() && !is_space(line[from]) {
        word_end(line, from + 1)
    } else {
        from
    }
}

/// The words of `line` that start at or after `from`.
pub open spec fn words_from(line: Seq<u8>, from: int) -> Seq<Seq<u8>>
    decreases line.len() - from,
    via words_from_decreases
{
    if from < 0 || from >= line.len() {
        Seq::empty()
    } else if is_space(line[from]) {
        words_from(line, from + 1)
    } else {
        seq![line.subrange(from, word_end(line, from))] + words_from(
            line,
            word_end(line, from),
        )
    }
}

#[via_fn]
proof fn words_from_decreases(line: Seq<u8>, from: int) {
    if 0 <= from < line.len() && !is_space(line[from]) {
        lemma_word_end_bounds(line, from);
    }
}

/// The words of a line: its longest runs of bytes that are not white space,
/// in order.
pub open spec fn words(line: Seq<u8>) -> Seq<Seq<u8>> {
    words_from(line, 0)
}

/// What a vector of byte strings holds.
pub open spec fn views(items: Seq<Vec<u8>>) -> Seq<Seq<u8>> {
    items.map_values(|w: Vec<u8>| w@)
}

/// The upper-case form of one byte.
pub open spec fn upper_byte(b: u8) -> u8 {
    if 0x61 <= b && b <= 0x7a {
        (b - 0x20) as u8
    } else {
        b
    }
}

/// The upper-case form of a word.
pub open spec fn upper(word: Seq<u8>) -> Seq<u8> {
    word.map_values(|b: u8| upper_byte(b))
}

/// The end of a word lies after its start and within the line.
pub proof fn lemma_word_end_bounds(line: Seq<u8>, from: int)
    requires
        0 <= from <= line.len(),
    ensures
        from <= word_end(line, from) <= line.len(),
        from < line.len() && !is_space(line[from]) ==> from < word_end(line, from),
        forall|k: int| from <= k < word_end(line, from) ==> !is_space(#[trigger] line[k]),
        word_end(line, from) < line.len() ==> is_space(line[word_end(line, from)]),
    decreases line.len() - from,
{
    if from < line.len() && !is_space(line[from]) {
        lemma_word_end_bounds(line, from + 1);
    }
}

/// No word of a line is empty, and no word holds white space.
pub proof fn lemma_words_are_words(line: Seq<u8>, from: int)
    requires
        0 <= from <= line.len(),
    ensures
        forall|k: int|
            0 <= k < words_from(line, from).len() ==> {
                let word = #[trigger] words_from(line, from)[k];
                word.len() > 0 && forall|i: int| 0 <= i < word.len() ==> !is_space(word[i])
            },
    decreases line.len() - from,
{
    if from < line.len() {
        if is_space(line[from]) {
            lemma_words_are_words(line, from + 1);
            let rest = words_from(line, from + 1);
            assert forall|k: int| 0 <= k < words_from(line, from).len() implies {
                let word = #[trigger] words_from(line, from)[k];
                word.len() > 0 && forall|i: int| 0 <= i < word.len() ==> !is_space(word[i])
            } by {
                assert(words_from(line, from)[k] == rest[k]);
            }
        } else {
            let end = word_end(line, from);
            lemma_word_end_bounds(line, from);
            lemma_words_are_words(line, end);
            let first = line.subrange(from, end);
            let rest = words_from(line, end);
            assert forall|k: int| 0 <= k < words_from(line, from).len() implies {
                let word = #[trigger] words_from(line, from)[k];
                word.len() > 0 && forall|i: int| 0 <= i < word.len() ==> !is_space(word[i])
            } by {
                if k == 0 {
                    assert(words_from(line, from)[0] == first);
                    assert forall|i: int| 0 <= i < first.len() implies !is_space(first[i]) by {
                        assert(first[i] == line[from + i]);
                    }
                } else {
                    assert(words_from(line, from)[k] == rest[k - 1]);
                }
            }
        }
    }
}

pub fn is_space_byte(b: u8) -> (r: bool)
    ensures
        r == is_space(b),
{
    b == 0x20 || (0x09 <= b && b <= 0x0d)
}

/// Whether two byte strings hold the same bytes.
pub fn bytes_eq(a: &[u8], b: &[u8]) -> (same: bool)
    ensures
        same == (a@ == b@),
{
    if a.len() != b.len() {
        return false;
    }
    let mut i: usize = 0;
    while i < a.len()
        invariant
            i <= a.len(),
            a.len() == b.len(),
            forall|k: int| 0 <= k < i ==> a@[k] == b@[k],
        decreases a.len() - i,
    {
        if a[i] != b[i] {
            return false;
        }
        i += 1;
    }
    assert(a@ =~= b@);
    true
}

/// Whether `word` holds the bytes of `text`.
pub fn is_text(word: &[u8], text: &str) -> (same: bool)
    ensures
        same == (word@ == text.spec_bytes()),
{
    bytes_eq(word, text.as_bytes())
}

/// A copy of `bytes`.
pub fn copy_bytes(bytes: &[u8]) -> (copy: Vec<u8>)
    ensures
        copy@ == bytes@,
{
    let mut copy: Vec<u8> = Vec::new();
    let mut i: usize = 0;
    while i < bytes.len()
        invariant
            i <= bytes.len(),
            copy@ == bytes@.take(i as int),
        decreases bytes.len() - i,
    {
        copy.push(bytes[i]);
        assert(bytes@.take(i + 1) =~= bytes@.take(i as int).push(bytes@[i as int]));
        i += 1;
    }
    assert(bytes@.take(bytes.len() as int) =~= bytes@);
    copy
}

/// A copy of the first `len` byte strings of `names`.
pub fn copy_names(names: &[Vec<u8>], len: usize) -> (copy: Vec<Vec<u8>>)
    requires
        len <= names@.len(),
    ensures
        views(copy@) == views(names@).take(len as int),
        len == names@.len() ==> views(copy@) == views(names@),
{
    let mut copy: Vec<Vec<u8>> = Vec::new();
    let mut k: usize = 0;
    while k < len
        invariant
            k <= len <= names@.len(),
            copy@.len() == k,
            forall|m: int| 0 <= m < k ==> copy@[m]@ == names@[m]@,
        decreases len - k,
    {
        copy.push(copy_bytes(names[k].as_slice()));
        k += 1;
    }
    assert(views(copy@) =~= views(names@).take(len as int));
    assert(views(names@).take(names@.len() as int) =~= views(names@));
    copy
}

/// The bytes of `text`.
pub fn text_bytes(text: &str) -> (bytes: Vec<u8>)
    ensures
        bytes@ == text.spec_bytes(),
{
    copy_bytes(text.as_bytes())
}

/// Puts the bytes of `tail` behind those of `out`.
pub fn append_bytes(out: &mut Vec<u8>, tail: &[u8])
    ensures
        final(out)@ == old(out)@ + tail@,
{
    let mut i: usize = 0;
    while i < tail.len()
        invariant
            i <= tail.len(),
            out@ == old(out)@ + tail@.take(i as int),
        decreases tail.len() - i,
    {
        out.push(tail[i]);
        assert(tail@.take(i + 1) =~= tail@.take(i as int).push(tail@[i as int]));
        assert(out@ =~= old(out)@ + tail@.take(i + 1));
        i += 1;
    }
    assert(tail@.take(tail.len() as int) =~= tail@);
}

/// The upper-case form of `word`.
pub fn to_upper(word: &[u8]) -> (out: Vec<u8>)
    ensures
        out@ == upper(word@),
{
    let mut out: Vec<u8> = Vec::new();
    let mut i: usize = 0;
    while i < word.len()
        invariant
            i <= word.len(),
            out@.len() == i,
            forall|k: int| 0 <= k < i ==> out@[k] == upper_byte(word@[k]),
        decreases word.len() - i,
    {
        let b = word[i];
        if 0x61 <= b && b <= 0x7a {
            out.push(b - 0x20);
        } else {
            out.push(b);
        }
        i += 1;
    }
    assert(out@ =~= upper(word@));
    out
}

/// Splits a line into its words.
pub fn split_words(line: &[u8]) -> (out: Vec<Vec<u8>>)
    ensures
        views(out@) == words(line@),
{
    let mut out: Vec<Vec<u8>> = Vec::new();
    let mut i: usize = 0;
    assert(views(out@) =~= Seq::<Seq<u8>>::empty());
    while i < line.len()
        invariant
            i <= line.len(),
            views(out@) + words_from(line@, i as int) == words(line@),
        decreases line.len() - i,
    {
        if is_space_byte(line[i]) {
            i += 1;
        } else {
            let ghost start = i as int;
            let ghost before = views(out@);
            let mut word: Vec<u8> = Vec::new();
            proof {
                lemma_word_end_bounds(line@, start);
            }
            while i < line.len() && !is_space_byte(line[i])
                invariant
                    0 <= start <= i <= line.len(),
                    word@ == line@.subrange(start, i as int),
                    word_end(line@, i as int) == word_end(line@, start),
                decreases line.len() - i,
            {
                word.push(line[i]);
                assert(line@.subrange(start, i + 1) =~= line@.subrange(start, i as int).push(
                    line@[i as int],
                ));
                i += 1;
            }
            assert(word_end(line@, start) == i);
            out.push(word);
            assert(views(out@) =~= before.push(word@));
            assert(before.push(word@) + words_from(line@, i as int) =~= before + (seq![word@]
                + words_from(line@, i as int)));
        }
    }
    assert(words_from(line@, i as int) =~= Seq::<Seq<u8>>::empty());
    assert(views(out@) + Seq::<Seq<u8>>::empty() =~= views(out@));
    out
}

} // verus!
