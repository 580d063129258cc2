use robin_lib::tts_groq::{chunk_text, fix_streamed_wav_header};

#[test]
fn returns_empty_vec_for_blank_input() {
    assert_eq!(chunk_text("   ", 200), Vec::<String>::new());
}

#[test]
fn keeps_short_text_as_a_single_chunk() {
    let chunks = chunk_text("Hello there. How are you?", 200);
    assert_eq!(chunks, vec!["Hello there. How are you?".to_string()]);
}

#[test]
fn splits_long_text_on_sentence_boundaries_within_limit() {
    let text = "Sentence one is here. Sentence two is here. Sentence three is here. Sentence four is here.";
    let chunks = chunk_text(text, 50);

    assert!(chunks.len() > 1);
    for chunk in &chunks {
        assert!(chunk.chars().count() <= 50, "chunk too long: {chunk:?}");
    }
    // Rejoining preserves every word in order.
    let rejoined = chunks.join(" ");
    assert_eq!(
        rejoined.split_whitespace().collect::<Vec<_>>(),
        text.split_whitespace().collect::<Vec<_>>()
    );
}

#[test]
fn falls_back_to_word_boundaries_for_oversized_sentences() {
    let text = "This single sentence has no punctuation anywhere so it just keeps going and going past the limit";
    let chunks = chunk_text(text, 30);

    assert!(chunks.len() > 1);
    for chunk in &chunks {
        assert!(chunk.chars().count() <= 30, "chunk too long: {chunk:?}");
    }
}

#[test]
fn falls_back_to_character_splitting_for_oversized_words() {
    let text = "https://example.com/a/very/long/url/that/has/no/spaces/in/it/whatsoever";
    let chunks = chunk_text(text, 20);

    assert!(chunks.len() > 1);
    for chunk in &chunks {
        assert!(chunk.chars().count() <= 20, "chunk too long: {chunk:?}");
    }
    assert_eq!(chunks.concat(), text);
}

#[test]
fn patches_placeholder_riff_and_data_sizes_to_actual_length() {
    // RIFF/WAVE header + fmt chunk + LIST/INFO chunk + data chunk,
    // mirroring Groq's streamed response shape with placeholder sizes.
    let mut wav = Vec::new();
    wav.extend_from_slice(b"RIFF");
    wav.extend_from_slice(&u32::MAX.to_le_bytes());
    wav.extend_from_slice(b"WAVE");
    wav.extend_from_slice(b"fmt ");
    wav.extend_from_slice(&16u32.to_le_bytes());
    wav.extend_from_slice(&[0u8; 16]);
    wav.extend_from_slice(b"LIST");
    wav.extend_from_slice(&4u32.to_le_bytes());
    wav.extend_from_slice(b"INFO");
    wav.extend_from_slice(b"data");
    wav.extend_from_slice(&u32::MAX.to_le_bytes());
    let pcm_samples = [1u8, 2, 3, 4, 5, 6, 7, 8];
    wav.extend_from_slice(&pcm_samples);

    fix_streamed_wav_header(&mut wav);

    let riff_size = u32::from_le_bytes(wav[4..8].try_into().unwrap());
    assert_eq!(riff_size as usize, wav.len() - 8);

    let data_chunk_pos = wav.len() - 8 - pcm_samples.len();
    let data_size = u32::from_le_bytes(
        wav[data_chunk_pos + 4..data_chunk_pos + 8].try_into().unwrap(),
    );
    assert_eq!(data_size as usize, pcm_samples.len());
}

#[test]
fn leaves_non_wav_bytes_untouched() {
    let mut bytes = vec![0u8, 1, 2, 3, 4, 5, 6, 7, 8, 9, 10, 11];
    let original = bytes.clone();
    fix_streamed_wav_header(&mut bytes);
    assert_eq!(bytes, original);
}
