use robin_lib::tts_groq::{prepare_speech_request, speech_error_message, speech_request_body, ORPHEUS_MAX_CHARS};

#[test]
fn body_is_json_with_escaped_text() {
    let body = speech_request_body("Say \"hi\"\n\u{1}\\", "diana");
    assert_eq!(
        body,
        "{\"input\":\"Say \\\"hi\\\"\\n\\u0001\\\\\",\"model\":\"canopylabs/orpheus-v1-english\",\"response_format\":\"wav\",\"voice\":\"diana\"}"
    );
    let v: serde_json::Value = serde_json::from_str(&body).unwrap();
    assert_eq!(v["input"], "Say \"hi\"\n\u{1}\\");
    assert_eq!(v["voice"], "diana");
    assert_eq!(v["model"], "canopylabs/orpheus-v1-english");
    assert_eq!(v["response_format"], "wav");
}

#[test]
fn missing_key_is_refused() {
    match prepare_speech_request("", "hello", "troy") {
        Err(e) => assert_eq!(e, "Groq API key not set. Please enter your API key in settings."),
        Ok(_) => panic!("expected an error"),
    }
}

#[test]
fn empty_voice_falls_back_to_autumn() {
    let req = prepare_speech_request("k-1", "hello", "").unwrap_or_else(|_| panic!("refused"));
    assert_eq!(req.url, "https://api.groq.com/openai/v1/audio/speech");
    assert_eq!(req.authorization, "Bearer k-1");
    let v: serde_json::Value = serde_json::from_str(&req.body).unwrap();
    assert_eq!(v["voice"], "autumn");
    assert_eq!(v["input"], "hello");
}

#[test]
fn chosen_voice_is_kept() {
    let req = prepare_speech_request("k", "x", "hannah").unwrap_or_else(|_| panic!("refused"));
    let v: serde_json::Value = serde_json::from_str(&req.body).unwrap();
    assert_eq!(v["voice"], "hannah");
}

#[test]
fn error_message_names_status_and_body() {
    assert_eq!(
        speech_error_message("429 Too Many Requests", "slow down"),
        "Groq TTS error 429 Too Many Requests: slow down"
    );
    assert_eq!(ORPHEUS_MAX_CHARS, 200);
}
