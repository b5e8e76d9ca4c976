use translate_pipeline::segmenter::pack_words;
use translate_pipeline::split_text_smartly;
use translate_pipeline::text::{chars_of, is_whitespace, split_words};

fn strings(items: &[&str]) -> Vec<String> {
    items.iter().map(|s| s.to_string()).collect()
}

/// The words of the segments, read one segment after the other.
fn words_of_all(segments: &[String]) -> Vec<String> {
    segments
        .iter()
        .flat_map(|s| s.split_whitespace().map(|w| w.to_string()))
        .collect()
}

#[test]
fn packs_words_up_to_the_bound() {
    assert_eq!(
        split_text_smartly("alpha beta gamma delta", 12),
        strings(&["alpha beta", "gamma delta"])
    );
}

#[test]
fn empty_text_has_no_segment() {
    assert_eq!(split_text_smartly("", 700), Vec::<String>::new());
}

#[test]
fn blank_text_has_no_segment() {
    assert_eq!(split_text_smartly(" \t\n\r  \u{3000}", 700), Vec::<String>::new());
}

#[test]
fn long_word_is_one_segment() {
    let token = "x".repeat(1000);
    assert_eq!(split_text_smartly(&token, 700), vec![token]);
}

#[test]
fn long_word_between_others_stands_alone() {
    assert_eq!(
        split_text_smartly("aa bbbbbbbbbb cc dd", 5),
        strings(&["aa", "bbbbbbbbbb", "cc dd"])
    );
}

#[test]
fn long_word_first_leaves_no_empty_segment() {
    assert_eq!(split_text_smartly("bbbbbbbbbb cc", 5), strings(&["bbbbbbbbbb", "cc"]));
}

#[test]
fn accumulator_counts_its_trailing_space() {
    // "abc " holds four characters: with "de" that is six.
    assert_eq!(split_text_smartly("abc de", 6), strings(&["abc de"]));
    assert_eq!(split_text_smartly("abc de", 5), strings(&["abc", "de"]));
}

#[test]
fn whitespace_between_words_becomes_one_space() {
    assert_eq!(
        split_text_smartly("  one\t\ttwo\n\nthree \u{00A0} four  ", 700),
        strings(&["one two three four"])
    );
}

#[test]
fn bound_of_zero_gives_each_word_a_segment() {
    assert_eq!(split_text_smartly("a bc d", 0), strings(&["a", "bc", "d"]));
}

#[test]
fn length_is_counted_in_characters() {
    // Five characters, nine bytes.
    assert_eq!(split_text_smartly("éé éé", 5), strings(&["éé éé"]));
    assert_eq!(split_text_smartly("éé éé", 4), strings(&["éé", "éé"]));
}

#[test]
fn segments_keep_the_words_in_order() {
    let text = "The quick  brown fox\njumps over\tthe lazy dog, again and again and again.";
    let words: Vec<String> = text.split_whitespace().map(|w| w.to_string()).collect();
    for bound in 0..40 {
        let segments = split_text_smartly(text, bound);
        assert_eq!(words_of_all(&segments), words);
    }
}

#[test]
fn segments_are_bounded_unless_a_single_word() {
    let text = "a bb ccc dddd eeeee ffffff ggggggg hhhhhhhh iiiiiiiii jjjjjjjjjj k l m";
    for bound in 0..30 {
        for segment in split_text_smartly(text, bound) {
            let length = segment.chars().count();
            assert!(length > 0);
            assert!(length <= bound || segment.split_whitespace().count() == 1);
            assert_eq!(segment.split_whitespace().collect::<Vec<_>>().join(" "), segment);
        }
    }
}

#[test]
fn segments_are_filled_greedily() {
    let text = "a bb ccc dddd eeeee ffffff ggggggg hhhhhhhh iiiiiiiii jjjjjjjjjj k l m";
    for bound in 0..30 {
        let segments = split_text_smartly(text, bound);
        for pair in segments.windows(2) {
            let next_word = pair[1].split_whitespace().next().unwrap();
            assert!(pair[0].chars().count() + 1 + next_word.chars().count() > bound);
        }
    }
}

#[test]
fn whitespace_is_what_std_calls_whitespace() {
    for code in 0..=0x10FFFF_u32 {
        if let Some(c) = char::from_u32(code) {
            assert_eq!(is_whitespace(c), c.is_whitespace(), "U+{:04X}", code);
        }
    }
}

#[test]
fn words_are_what_std_splits() {
    let texts = [
        "",
        " ",
        "one",
        " lead",
        "trail ",
        "a  b\tc\nd\re\u{000B}f\u{000C}g",
        "x\u{0085}y\u{00A0}z\u{1680}w\u{2003}v\u{2028}u\u{2029}t\u{202F}s\u{205F}r\u{3000}q",
        "zero\u{200B}width is no space",
        "ترجمة النص  العربي",
    ];
    for text in texts {
        let expected: Vec<String> = text.split_whitespace().map(|w| w.to_string()).collect();
        assert_eq!(split_words(text), expected);
    }
}

#[test]
fn chars_are_kept_in_order() {
    assert_eq!(chars_of("aé\n"), vec!['a', 'é', '\n']);
    assert_eq!(chars_of(""), Vec::<char>::new());
}

#[test]
fn packing_joins_with_single_spaces() {
    let words = strings(&["alpha", "beta", "gamma", "delta"]);
    assert_eq!(pack_words(&words, 12), strings(&["alpha beta", "gamma delta"]));
    assert_eq!(pack_words(&words, 700), strings(&["alpha beta gamma delta"]));
    assert_eq!(pack_words(&Vec::new(), 12), Vec::<String>::new());
}
