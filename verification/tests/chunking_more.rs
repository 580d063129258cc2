use robin_lib::tts_groq::chunk_text;

#[test]
fn packs_sentences_greedily() {
    assert_eq!(chunk_text("A b. C d. E f.", 8), vec!["A b.", "C d.", "E f."]);
    assert_eq!(chunk_text("A b. C d. E f.", 9), vec!["A b. C d.", "E f."]);
}

#[test]
fn blank_text_with_zero_limit_gives_nothing() {
    assert_eq!(chunk_text(" \t\n ", 0), Vec::<String>::new());
    assert_eq!(chunk_text("", 5), Vec::<String>::new());
}

#[test]
fn whitespace_between_sentences_becomes_one_space() {
    assert_eq!(chunk_text("Hi.   There", 200), vec!["Hi. There"]);
    assert_eq!(chunk_text("  Hi!\n\nThere?  ", 200), vec!["Hi! There?"]);
}

#[test]
fn punctuation_inside_a_word_does_not_end_a_sentence() {
    assert_eq!(chunk_text("e.g.x is fine. Next", 14), vec!["e.g.x is fine.", "Next"]);
}

#[test]
fn limits_count_characters_not_bytes() {
    assert_eq!(chunk_text("ééééé ééééé", 5), vec!["ééééé", "ééééé"]);
}

#[test]
fn long_word_is_cut_into_runs() {
    assert_eq!(chunk_text("abcdefghij", 4), vec!["abcd", "efgh", "ij"]);
    assert_eq!(chunk_text("xy abcdefghij z", 4), vec!["xy", "abcd", "efgh", "ij", "z"]);
}

#[test]
fn oversized_sentence_closes_the_open_chunk() {
    assert_eq!(
        chunk_text("Hi. one two three four. Ok.", 10),
        vec!["Hi.", "one two", "three", "four.", "Ok."]
    );
}

#[test]
fn every_chunk_is_within_limit_and_text_is_kept() {
    let text = "Lorem ipsum dolor sit amet, consectetur adipiscing elit. Sed do eiusmod tempor incididunt ut labore et dolore magna aliqua! Ut enim ad minim veniam? Quis nostrud exercitation ullamco laboris.";
    for limit in [1usize, 3, 7, 12, 25, 60, 200] {
        let chunks = chunk_text(text, limit);
        for c in &chunks {
            let n = c.chars().count();
            assert!(n > 0 && n <= limit, "limit {limit}: {c:?}");
        }
        let kept: String = chunks.concat().chars().filter(|c| !c.is_whitespace()).collect();
        let original: String = text.chars().filter(|c| !c.is_whitespace()).collect();
        assert_eq!(kept, original);
    }
}

#[test]
fn words_survive_when_none_is_too_long() {
    let text = "Alpha beta gamma.  Delta epsilon!\tZeta eta theta iota kappa lambda mu.";
    let chunks = chunk_text(text, 12);
    assert_eq!(
        chunks.join(" ").split_whitespace().collect::<Vec<_>>(),
        text.split_whitespace().collect::<Vec<_>>()
    );
}

#[test]
fn every_chunk_is_trimmed() {
    let text = "  First one.   Second  one!\n\nA verylongword here.  ";
    for max in 1..30 {
        for c in chunk_text(text, max) {
            assert!(!c.is_empty());
            assert_eq!(c.trim(), c.as_str());
        }
    }
}

#[test]
fn next_sentence_would_not_fit_in_closed_chunk() {
    let chunks = chunk_text("One. Two. Three.", 10);
    assert_eq!(chunks, vec!["One. Two.", "Three."]);
    assert!("One. Two. Three.".chars().count() > 10);
}

#[test]
fn oversized_sentence_packs_words_greedily() {
    assert_eq!(chunk_text("aa bb cc dd", 5), vec!["aa bb", "cc dd"]);
    assert_eq!(chunk_text("aa bb cc dd", 8), vec!["aa bb cc", "dd"]);
}
