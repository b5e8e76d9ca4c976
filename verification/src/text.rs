//! Whitespace and words.

use vstd::prelude::*;

verus! {

/// Whether `c` is whitespace: one of the code points that carry the Unicode
/// property `White_Space`.
pub open spec fn is_space(c: char) -> bool {
    let u = c as u32;
    ||| 0x09 <= u <= 0x0D
    ||| u == 0x20
    ||| u == 0x85
    ||| u == 0xA0
    ||| u == 0x1680
    ||| 0x2000 <= u <= 0x200A
    ||| u == 0x2028
    ||| u == 0x2029
    ||| u == 0x202F
    ||| u == 0x205F
    ||| u == 0x3000
}

/// Tells whether `c` is whitespace.
pub fn is_whitespace(c: char) -> (b: bool)
    ensures
        b == is_space(c),
{
    let u: u32 = c as u32;
    (0x09 <= u && u <= 0x0D) || u == 0x20 || u == 0x85 || u == 0xA0 || u == 0x1680 || (0x2000 <= u
        && u <= 0x200A) || u == 0x2028 || u == 0x2029 || u == 0x202F || u == 0x205F || u == 0x3000
}

/// The number of characters at the front of `s` that come before its first
/// whitespace character; `s.len()` if `s` holds no whitespace.
pub open spec fn word_len(s: Seq<char>) -> nat
    decreases s.len(),
{
    if s.len() == 0 || is_space(s[0]) {
        0
    } else {
        1 + word_len(s.skip(1))
    }
}

/// A word: at least one character, none of them whitespace.
pub open spec fn is_word(w: Seq<char>) -> bool {
    &&& w.len() > 0
    &&& forall|i: int| 0 <= i < w.len() ==> !is_space(#[trigger] w[i])
}

/// The words of `s`: its maximal runs of characters that are not
/// whitespace, in the order in which they stand in `s`.
pub open spec fn words_of(s: Seq<char>) -> Seq<Seq<char>>
    decreases s.len(),
    via words_of_decreases
{
    if s.len() == 0 {
        Seq::empty()
    } else if is_space(s[0]) {
        words_of(s.skip(1))
    } else {
        let n = word_len(s) as int;
        seq![s.take(n)] + words_of(s.skip(n))
    }
}

#[via_fn]
proof fn words_of_decreases(s: Seq<char>) {
    lemma_word_len_run(s);
}

/// The word at the front of `s` holds no whitespace, and ends at a
/// whitespace character or at the end of `s`.
pub proof fn lemma_word_len_run(s: Seq<char>)
    ensures
        word_len(s) <= s.len(),
        forall|k: int| 0 <= k < word_len(s) ==> !is_space(#[trigger] s[k]),
        word_len(s) < s.len() ==> is_space(s[word_len(s) as int]),
    decreases s.len(),
{
    if s.len() > 0 && !is_space(s[0]) {
        let rest = s.skip(1);
        lemma_word_len_run(rest);
        assert forall|k: int| 0 <= k < word_len(s) implies !is_space(#[trigger] s[k]) by {
            if k > 0 {
                assert(s[k] == rest[k - 1]);
            }
        }
    }
}

/// Skipping a whitespace character loses no word.
pub proof fn lemma_words_skip_space(s: Seq<char>, i: int)
    requires
        0 <= i < s.len(),
        is_space(s[i]),
    ensures
        words_of(s.skip(i)) == words_of(s.skip(i + 1)),
{
    assert(s.skip(i).skip(1) =~= s.skip(i + 1));
}

/// A run of characters without whitespace that ends at whitespace, or at the
/// end of `s`, is the word at the front of what `s` holds from `start` on.
pub proof fn lemma_word_run(s: Seq<char>, start: int, end: int)
    requires
        0 <= start <= end <= s.len(),
        forall|k: int| start <= k < end ==> !is_space(#[trigger] s[k]),
        end == s.len() || is_space(s[end]),
    ensures
        word_len(s.skip(start)) == end - start,
    decreases end - start,
{
    if start < end {
        lemma_word_run(s, start + 1, end);
        assert(s.skip(start).skip(1) =~= s.skip(start + 1));
    }
}

/// The word that starts at `start` and ends before `end` is the first of
/// the words that `s` holds from `start` on; the others are those that it
/// holds from `end` on.
pub proof fn lemma_words_take_word(s: Seq<char>, start: int, end: int)
    requires
        0 <= start < end <= s.len(),
        forall|k: int| start <= k < end ==> !is_space(#[trigger] s[k]),
        end == s.len() || is_space(s[end]),
    ensures
        words_of(s.skip(start)) == seq![s.subrange(start, end)] + words_of(s.skip(end)),
{
    lemma_word_run(s, start, end);
    let rest = s.skip(start);
    let n = end - start;
    assert(rest.take(n) =~= s.subrange(start, end));
    assert(rest.skip(n) =~= s.skip(end));
}

/// Each of the words of `s` is a word: it is not empty and holds no
/// whitespace.
pub proof fn lemma_words_are_words(s: Seq<char>)
    ensures
        forall|i: int| 0 <= i < words_of(s).len() ==> is_word(#[trigger] words_of(s)[i]),
    decreases s.len(),
{
    if s.len() > 0 {
        if is_space(s[0]) {
            lemma_words_are_words(s.skip(1));
            assert(words_of(s) == words_of(s.skip(1)));
        } else {
            let n = word_len(s) as int;
            lemma_word_len_run(s);
            lemma_words_are_words(s.skip(n));
            assert(words_of(s) == seq![s.take(n)] + words_of(s.skip(n)));
        }
    }
}

/// A word is the one word of itself.
pub proof fn lemma_words_of_word(w: Seq<char>)
    requires
        is_word(w),
    ensures
        words_of(w) == seq![w],
{
    lemma_words_take_word(w, 0, w.len() as int);
    assert(w.skip(0) =~= w);
}

/// A space and a word written behind `s` add that word to the words of `s`.
pub proof fn lemma_words_append(s: Seq<char>, w: Seq<char>)
    requires
        is_word(w),
    ensures
        words_of(s + seq![' '] + w) == words_of(s).push(w),
    decreases s.len(),
{
    let t = s + seq![' '] + w;
    if s.len() == 0 {
        assert(t.skip(1) =~= w);
        lemma_words_of_word(w);
    } else if is_space(s[0]) {
        assert(t.skip(1) =~= s.skip(1) + seq![' '] + w);
        lemma_words_append(s.skip(1), w);
    } else {
        let n = word_len(s) as int;
        lemma_word_len_run(s);
        assert forall|k: int| 0 <= k < n implies !is_space(#[trigger] t[k]) by {
            assert(t[k] == s[k]);
        }
        assert(is_space(t[n]));
        lemma_words_take_word(t, 0, n);
        assert(t.skip(0) =~= t);
        assert(t.subrange(0, n) =~= s.take(n));
        assert(t.skip(n) =~= s.skip(n) + seq![' '] + w);
        lemma_words_append(s.skip(n), w);
    }
}

/// `String::push` appends one character to the end of the string.
pub assume_specification[ String::push ](s: &mut String, c: char)
    ensures
        final(s)@ == old(s)@.push(c),
;

/// The characters of `text`, in order.
pub fn chars_of(text: &str) -> (chars: Vec<char>)
    ensures
        chars@ == text@,
{
    let mut chars: Vec<char> = Vec::new();
    for c in it: text.chars()
        invariant
            it.seq() == text@,
            chars@ == it.seq().take(it.index()),
    {
        chars.push(c);
    }
    chars
}

/// Splits `text` into its words, dropping the whitespace between them.
pub fn split_words(text: &str) -> (words: Vec<String>)
    ensures
        words.deep_view() == words_of(text@),
{
    let chars = chars_of(text);
    let n = chars.len();
    let mut words: Vec<String> = Vec::new();
    let mut i: usize = 0;
    assert(text@.skip(0) =~= text@);
    while i < n
        invariant
            i <= n,
            n == chars.len(),
            chars@ == text@,
            words_of(text@) == words.deep_view() + words_of(text@.skip(i as int)),
        decreases n - i,
    {
        if is_whitespace(chars[i]) {
            proof {
                lemma_words_skip_space(text@, i as int);
            }
            i += 1;
        } else {
            let start = i;
            let mut word = String::new();
            while i < n && !is_whitespace(chars[i])
                invariant
                    start <= i <= n,
                    n == chars.len(),
                    word@ == chars@.subrange(start as int, i as int),
                    forall|k: int| start <= k < i ==> !is_space(#[trigger] chars@[k]),
                decreases n - i,
            {
                word.push(chars[i]);
                i += 1;
            }
            proof {
                lemma_words_take_word(text@, start as int, i as int);
            }
            words.push(word);
        }
    }
    words
}

} // verus!
