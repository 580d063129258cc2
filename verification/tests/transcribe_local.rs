use robin_lib::transcribe_local::{model_download_url, model_filename, transcript_from_segments};

#[test]
fn test_model_filename() {
    assert_eq!(model_filename("small"), "ggml-small.bin");
    assert_eq!(model_filename("medium"), "ggml-medium.bin");
}

#[test]
fn test_model_download_url() {
    assert_eq!(
        model_download_url("small"),
        "https://huggingface.co/ggerganov/whisper.cpp/resolve/main/ggml-small.bin"
    );
}

#[test]
fn transcript_joins_segments_and_trims() {
    let segments = vec![" Hello".to_string(), " world.".to_string(), "\n".to_string()];
    assert_eq!(transcript_from_segments(&segments), "Hello world.");
    assert_eq!(transcript_from_segments(&Vec::new()), "");
}
