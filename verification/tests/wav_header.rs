use robin_lib::tts_groq::fix_streamed_wav_header;

fn streamed_wav(pcm: &[u8]) -> Vec<u8> {
    let mut wav = Vec::new();
    wav.extend_from_slice(b"RIFF");
    wav.extend_from_slice(&u32::MAX.to_le_bytes());
    wav.extend_from_slice(b"WAVE");
    wav.extend_from_slice(b"fmt ");
    wav.extend_from_slice(&16u32.to_le_bytes());
    wav.extend_from_slice(&[0u8; 16]);
    wav.extend_from_slice(b"data");
    wav.extend_from_slice(&u32::MAX.to_le_bytes());
    wav.extend_from_slice(pcm);
    wav
}

#[test]
fn repairing_twice_changes_nothing_more() {
    let mut once = streamed_wav(&[9, 8, 7]);
    fix_streamed_wav_header(&mut once);
    let mut twice = once.clone();
    fix_streamed_wav_header(&mut twice);
    assert_eq!(once, twice);
    assert_eq!(u32::from_le_bytes(once[4..8].try_into().unwrap()), 39);
    assert_eq!(u32::from_le_bytes(once[40..44].try_into().unwrap()), 3);
}

#[test]
fn riff_without_data_chunk_gets_only_its_riff_size() {
    let mut wav = Vec::new();
    wav.extend_from_slice(b"RIFF");
    wav.extend_from_slice(&[0xff; 4]);
    wav.extend_from_slice(b"WAVE");
    wav.extend_from_slice(b"junk");
    wav.extend_from_slice(&3u32.to_le_bytes());
    wav.extend_from_slice(&[1, 2, 3, 0]);
    let mut fixed = wav.clone();
    fix_streamed_wav_header(&mut fixed);
    assert_eq!(u32::from_le_bytes(fixed[4..8].try_into().unwrap()), 16);
    assert_eq!(&fixed[8..], &wav[8..]);
}

#[test]
fn odd_sized_chunks_are_padded_when_walking() {
    let mut wav = Vec::new();
    wav.extend_from_slice(b"RIFF");
    wav.extend_from_slice(&[0; 4]);
    wav.extend_from_slice(b"WAVE");
    wav.extend_from_slice(b"odd ");
    wav.extend_from_slice(&1u32.to_le_bytes());
    wav.extend_from_slice(&[7, 0]);
    wav.extend_from_slice(b"data");
    wav.extend_from_slice(&[0xff; 4]);
    wav.extend_from_slice(&[5, 5, 5, 5]);
    fix_streamed_wav_header(&mut wav);
    assert_eq!(u32::from_le_bytes(wav[26..30].try_into().unwrap()), 4);
}

#[test]
fn short_or_foreign_buffers_are_left_alone() {
    let mut short = b"RIFF1234WAV".to_vec();
    let before = short.clone();
    fix_streamed_wav_header(&mut short);
    assert_eq!(short, before);

    let mut rifx = b"RIFX\xff\xff\xff\xffWAVEdata\x00\x00\x00\x00".to_vec();
    let before = rifx.clone();
    fix_streamed_wav_header(&mut rifx);
    assert_eq!(rifx, before);
}
