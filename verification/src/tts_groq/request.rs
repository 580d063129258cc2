//! The HTTP request that asks Groq's Orpheus model for speech, and the
//! messages for a refused one.
use vstd::prelude::*;

verus! {

/// Orpheus rejects (or silently mishandles) input over this length, and it
/// accepts no `speed` parameter; playback rate must be applied client-side.
pub const ORPHEUS_MAX_CHARS: usize = 200;

/// The endpoint that synthesizes speech.
pub open spec fn speech_url_text() -> Seq<char> {
    "https://api.groq.com/openai/v1/audio/speech"@
}

/// The voice used when none is chosen.
pub open spec fn default_voice_text() -> Seq<char> {
    "autumn"@
}

/// The message for a request made without an API key.
pub open spec fn missing_key_message() -> Seq<char> {
    "Groq API key not set. Please enter your API key in settings."@
}

/// The lowercase hexadecimal digit for `n` (`n < 16`).
pub open spec fn hex_digit(n: int) -> char {
    seq!['0', '1', '2', '3', '4', '5', '6', '7', '8', '9', 'a', 'b', 'c', 'd', 'e', 'f'][n]
}

/// How one character is written inside a JSON string: quote, backslash and
/// control characters are escaped; everything else stands for itself.
pub open spec fn json_escape_char(c: char) -> Seq<char> {
    let n = c as u32;
    if c == '"' {
        seq!['\\', '"']
    } else if c == '\\' {
        seq!['\\', '\\']
    } else if n == 0x8 {
        seq!['\\', 'b']
    } else if n == 0x9 {
        seq!['\\', 't']
    } else if n == 0xa {
        seq!['\\', 'n']
    } else if n == 0xc {
        seq!['\\', 'f']
    } else if n == 0xd {
        seq!['\\', 'r']
    } else if n < 0x20 {
        seq!['\\', 'u', '0', '0', hex_digit((n / 16) as int), hex_digit((n % 16) as int)]
    } else {
        seq![c]
    }
}

/// The characters of `s`, each escaped for a JSON string.
pub open spec fn json_escaped(s: Seq<char>) -> Seq<char>
    decreases s.len(),
{
    if s.len() == 0 {
        Seq::empty()
    } else {
        json_escaped(s.drop_last()) + json_escape_char(s.last())
    }
}

/// `s` as a JSON string literal.
pub open spec fn json_string(s: Seq<char>) -> Seq<char> {
    seq!['"'] + json_escaped(s) + seq!['"']
}

#[verifier::external_type_specification]
#[verifier::external_body]
pub struct ExJsonError(serde_json::Error);

/// Calls `serde_json::to_string` on a string slice. Its serializer writes the
/// quoted, escaped text into a `Vec<u8>`, whose writes never fail, so the
/// result is always `Ok` and holds `json_string` of the input.
#[verifier::external_body]
fn json_string_literal(s: &str) -> (r: Result<String, serde_json::Error>)
    ensures
        r is Ok,
        r->Ok_0@ == json_string(s@),
{
    serde_json::to_string(s)
}

fn quoted(s: &str) -> (r: String)
    ensures
        r@ == json_string(s@),
{
    match json_string_literal(s) {
        Ok(q) => q,
        Err(_) => String::new(),
    }
}

/// The JSON body that asks Orpheus for WAV speech of `input` in `voice`
/// (fields in the order serde_json gives an object's keys).
pub open spec fn speech_body_text(input: Seq<char>, voice: Seq<char>) -> Seq<char> {
    "{\"input\":"@ + json_string(input) + ",\"model\":\"canopylabs/orpheus-v1-english\""@
        + ",\"response_format\":\"wav\",\"voice\":"@ + json_string(voice) + "}"@
}

/// A speech request ready to send: where, with which credentials, and what.
pub struct SpeechRequest {
    pub url: String,
    pub authorization: String,
    pub body: String,
}

/// The JSON body that asks Orpheus for WAV speech of `input` in `voice`.
pub fn speech_request_body(input: &str, voice: &str) -> (r: String)
    ensures
        r@ == speech_body_text(input@, voice@),
{
    let mut body = String::from_str("{\"input\":");
    let q = quoted(input);
    body.append(q.as_str());
    body.append(",\"model\":\"canopylabs/orpheus-v1-english\"");
    body.append(",\"response_format\":\"wav\",\"voice\":");
    let v = quoted(voice);
    body.append(v.as_str());
    body.append("}");
    body
}

/// The request for speech of `text` in `voice` (Orpheus's default voice when
/// `voice` is empty), or the error for a missing API key.
pub fn prepare_speech_request(api_key: &str, text: &str, voice: &str) -> (r: Result<
    SpeechRequest,
    String,
>)
    ensures
        api_key@.len() == 0 <==> r is Err,
        r matches Err(e) ==> e@ == missing_key_message(),
        r matches Ok(req) ==> {
            &&& req.url@ == speech_url_text()
            &&& req.authorization@ == "Bearer "@ + api_key@
            &&& req.body@ == speech_body_text(
                text@,
                if voice@.len() == 0 {
                    default_voice_text()
                } else {
                    voice@
                },
            )
        },
{
    if api_key.unicode_len() == 0 {
        return Err(String::from_str("Groq API key not set. Please enter your API key in settings."));
    }
    let body = if voice.unicode_len() == 0 {
        speech_request_body(text, "autumn")
    } else {
        speech_request_body(text, voice)
    };
    let mut authorization = String::from_str("Bearer ");
    authorization.append(api_key);
    Ok(
        SpeechRequest {
            url: String::from_str("https://api.groq.com/openai/v1/audio/speech"),
            authorization,
            body,
        },
    )
}

/// The message for a response with a failure status; `status` is the status as
/// the HTTP client prints it and `body` the response text.
pub fn speech_error_message(status: &str, body: &str) -> (r: String)
    ensures
        r@ == "Groq TTS error "@ + status@ + ": "@ + body@,
{
    let mut m = String::from_str("Groq TTS error ");
    m.append(status);
    m.append(": ");
    m.append(body);
    m
}

} // verus!
