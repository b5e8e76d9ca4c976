//! Packing the words of a document into segments of bounded length.

use crate::text::{
    is_word, lemma_words_append, lemma_words_are_words, lemma_words_of_word, split_words, words_of,
};
use vstd::prelude::*;
use vstd::string::*;

verus! {

/// The segments that `words` are packed into, in order. Each word joins the
/// last segment behind a single space, unless there is no segment yet or
/// the last segment, the space and the word together hold more than
/// `max_len` characters: then the word starts a segment of its own.
pub open spec fn segments(words: Seq<Seq<char>>, max_len: nat) -> Seq<Seq<char>>
    decreases words.len(),
{
    if words.len() == 0 {
        Seq::empty()
    } else {
        let before = segments(words.drop_last(), max_len);
        let word = words.last();
        if before.len() == 0 || before.last().len() + 1 + word.len() > max_len {
            before.push(word)
        } else {
            before.drop_last().push(before.last() + seq![' '] + word)
        }
    }
}

/// The segments of `text` for the bound `max_len`: its words, packed.
pub open spec fn split(text: Seq<char>, max_len: nat) -> Seq<Seq<char>> {
    segments(words_of(text), max_len)
}

/// The words of all of `parts`, in the order in which they stand there.
pub open spec fn words_in(parts: Seq<Seq<char>>) -> Seq<Seq<char>>
    decreases parts.len(),
{
    if parts.len() == 0 {
        Seq::empty()
    } else {
        words_in(parts.drop_last()) + words_of(parts.last())
    }
}

/// Whether each element of `words` is a word.
pub open spec fn all_words(words: Seq<Seq<char>>) -> bool {
    forall|i: int| 0 <= i < words.len() ==> is_word(#[trigger] words[i])
}

/// Packing drops no word, repeats none and keeps their order: the words of
/// the segments, read one segment after the other, are the words that were
/// packed.
pub proof fn lemma_segments_keep_words(words: Seq<Seq<char>>, max_len: nat)
    requires
        all_words(words),
    ensures
        words_in(segments(words, max_len)) == words,
    decreases words.len(),
{
    if words.len() > 0 {
        let before = segments(words.drop_last(), max_len);
        let word = words.last();
        let packed = segments(words, max_len);
        lemma_segments_keep_words(words.drop_last(), max_len);
        if before.len() == 0 || before.last().len() + 1 + word.len() > max_len {
            assert(packed.drop_last() =~= before);
            lemma_words_of_word(word);
        } else {
            assert(packed.drop_last() =~= before.drop_last());
            lemma_words_append(before.last(), word);
            assert(words_in(before.drop_last()) + words_of(before.last()).push(word) =~= (words_in(
                before.drop_last(),
            ) + words_of(before.last())).push(word));
        }
    }
}

/// No segment is empty, and a segment holds more than `max_len` characters
/// only if it is a single word.
pub proof fn lemma_segments_bounded(words: Seq<Seq<char>>, max_len: nat)
    requires
        all_words(words),
    ensures
        forall|i: int|
            0 <= i < segments(words, max_len).len() ==> {
                let segment = #[trigger] segments(words, max_len)[i];
                &&& segment.len() > 0
                &&& segment.len() <= max_len || is_word(segment)
            },
    decreases words.len(),
{
    if words.len() > 0 {
        let before = segments(words.drop_last(), max_len);
        lemma_segments_bounded(words.drop_last(), max_len);
        assert forall|i: int| 0 <= i < segments(words, max_len).len() implies {
            let segment = #[trigger] segments(words, max_len)[i];
            &&& segment.len() > 0
            &&& segment.len() <= max_len || is_word(segment)
        } by {
            if i < segments(words, max_len).len() - 1 {
                assert(segments(words, max_len)[i] == before[i]);
            }
        }
    }
}

/// Segments are filled as far as the bound allows: each segment but the
/// last is so long that the first word of the next one did not fit behind
/// it.
pub proof fn lemma_segments_filled(words: Seq<Seq<char>>, max_len: nat)
    requires
        all_words(words),
    ensures
        forall|i: int|
            0 <= i < segments(words, max_len).len() ==> words_of(
                #[trigger] segments(words, max_len)[i],
            ).len() > 0,
        forall|i: int|
            0 <= i < segments(words, max_len).len() - 1 ==> segments(words, max_len)[i].len() + 1
                + words_of(#[trigger] segments(words, max_len)[i + 1])[0].len() > max_len,
    decreases words.len(),
{
    if words.len() > 0 {
        let before = segments(words.drop_last(), max_len);
        let word = words.last();
        let packed = segments(words, max_len);
        let last = packed.len() - 1;
        lemma_segments_filled(words.drop_last(), max_len);
        if before.len() == 0 || before.last().len() + 1 + word.len() > max_len {
            lemma_words_of_word(word);
        } else {
            lemma_words_append(before.last(), word);
        }
        assert forall|i: int| 0 <= i < packed.len() implies words_of(#[trigger] packed[i]).len()
            > 0 by {
            if i < last {
                assert(packed[i] == before[i]);
            }
        }
        assert forall|i: int| 0 <= i < packed.len() - 1 implies packed[i].len() + 1 + words_of(
            #[trigger] packed[i + 1],
        )[0].len() > max_len by {
            assert(packed[i] == before[i]);
            if i + 1 < last {
                assert(packed[i + 1] == before[i + 1]);
            }
        }
    }
}

/// Splitting keeps the words of the text: every word stands in a segment,
/// once, and in the order of the text.
pub proof fn lemma_split_keeps_words(text: Seq<char>, max_len: nat)
    ensures
        words_in(split(text, max_len)) == words_of(text),
{
    lemma_words_are_words(text);
    lemma_segments_keep_words(words_of(text), max_len);
}

/// No segment of a text is empty, and a segment holds more than `max_len`
/// characters only if it is a single word.
pub proof fn lemma_split_bounded(text: Seq<char>, max_len: nat)
    ensures
        forall|i: int|
            0 <= i < split(text, max_len).len() ==> {
                let segment = #[trigger] split(text, max_len)[i];
                &&& segment.len() > 0
                &&& segment.len() <= max_len || is_word(segment)
            },
{
    lemma_words_are_words(text);
    lemma_segments_bounded(words_of(text), max_len);
}

/// The segments of a text are filled as far as the bound allows: each
/// segment but the last is so long that the first word of the next one did
/// not fit behind it.
pub proof fn lemma_split_filled(text: Seq<char>, max_len: nat)
    ensures
        forall|i: int|
            0 <= i < split(text, max_len).len() - 1 ==> split(text, max_len)[i].len() + 1
                + words_of(#[trigger] split(text, max_len)[i + 1])[0].len() > max_len,
{
    lemma_words_are_words(text);
    lemma_segments_filled(words_of(text), max_len);
}

/// A text has no segment exactly when it has no word; the empty text has
/// none.
pub proof fn lemma_split_of_blank(text: Seq<char>, max_len: nat)
    ensures
        split(text, max_len).len() == 0 <==> words_of(text).len() == 0,
        text.len() == 0 ==> split(text, max_len) == Seq::<Seq<char>>::empty(),
{
}

/// A text that is one word has one segment, the word itself, however long
/// it is.
pub proof fn lemma_split_of_word(word: Seq<char>, max_len: nat)
    requires
        is_word(word),
    ensures
        split(word, max_len) == seq![word],
{
    lemma_words_of_word(word);
    let words = seq![word];
    assert(segments(words.drop_last(), max_len).len() == 0);
}

/// Packs `words` into segments of at most `max_len` characters, joining the
/// words of a segment with single spaces. A word is never cut: one that is
/// longer than `max_len` is a segment of its own.
pub fn pack_words(words: &Vec<String>, max_len: usize) -> (packed: Vec<String>)
    ensures
        packed.deep_view() == segments(words.deep_view(), max_len as nat),
{
    let n = words.len();
    let mut packed: Vec<String> = Vec::new();
    let mut current = String::new();
    let mut current_len: usize = 0;
    let mut open = false;
    let mut i: usize = 0;
    while i < n
        invariant
            i <= n,
            n == words.len(),
            current_len == current@.len(),
            !open ==> packed.len() == 0 && segments(
                words.deep_view().take(i as int),
                max_len as nat,
            ).len() == 0,
            open ==> segments(words.deep_view().take(i as int), max_len as nat)
                == packed.deep_view().push(current@),
        decreases n - i,
    {
        let word = words[i].as_str();
        let word_len = word.unicode_len();
        proof {
            let upto = words.deep_view().take(i as int + 1);
            assert(upto.drop_last() =~= words.deep_view().take(i as int));
            assert(upto.last() == word@);
        }
        if !open {
            current = words[i].clone();
            current_len = word_len;
            open = true;
        } else if current_len >= max_len || word_len > max_len - current_len - 1 {
            packed.push(current);
            current = words[i].clone();
            current_len = word_len;
        } else {
            proof {
                reveal_strlit(" ");
            }
            current.append(" ");
            current.append(word);
            current_len = current_len + 1 + word_len;
            assert(" "@ =~= seq![' ']);
        }
        i += 1;
    }
    assert(words.deep_view().take(n as int) =~= words.deep_view());
    if open {
        packed.push(current);
    }
    packed
}

/// Splits `text` into segments of words joined by single spaces, each of at
/// most `max_len` characters unless it is a single longer word.
pub fn split_text_smartly(text: &str, max_len: usize) -> (chunks: Vec<String>)
    ensures
        chunks.deep_view() == split(text@, max_len as nat),
        words_in(chunks.deep_view()) == words_of(text@),
        forall|i: int|
            0 <= i < chunks.len() ==> {
                let segment = #[trigger] chunks[i]@;
                &&& segment.len() > 0
                &&& segment.len() <= max_len || is_word(segment)
            },
{
    let words = split_words(text);
    let chunks = pack_words(&words, max_len);
    proof {
        lemma_split_keeps_words(text@, max_len as nat);
        lemma_split_bounded(text@, max_len as nat);
        assert forall|i: int| 0 <= i < chunks.len() implies {
            let segment = #[trigger] chunks[i]@;
            &&& segment.len() > 0
            &&& segment.len() <= max_len || is_word(segment)
        } by {
            assert(chunks[i]@ == split(text@, max_len as nat)[i]);
        }
    }
    chunks
}

} // verus!
