//! Read-aloud decisions: which engine, which voices, what to send where.
use vstd::prelude::*;

use crate::settings::{voice_for_engine, Settings};
use crate::text::{same_text, string_views, trim, trimmed};
use crate::tts_groq::chunking::{all_within, text_chunks};
use crate::tts_groq::{chunk_text, ORPHEUS_MAX_CHARS};

verus! {

/// A voice that the user can pick.
#[derive(Debug, Clone)]
pub struct VoiceInfo {
    pub id: String,
    pub name: String,
    pub engine: String,
}

/// The read-aloud engines.
#[derive(Debug, Clone, Copy, PartialEq, Eq, Structural)]
pub enum TtsEngine {
    Local,
    Cloud,
}

impl TtsEngine {
    /// The cloud engine when the settings say `"cloud"`, the local one
    /// otherwise.
    pub fn from_settings(s: &Settings) -> (e: Self)
        ensures
            e == (if s.tts_engine@ == "cloud"@ {
                TtsEngine::Cloud
            } else {
                TtsEngine::Local
            }),
    {
        if same_text(s.tts_engine.as_str(), "cloud") {
            TtsEngine::Cloud
        } else {
            TtsEngine::Local
        }
    }
}

/// The voices of Groq's Orpheus model, as (id, display name), in the order the
/// app lists them.
pub open spec fn orpheus_voices() -> Seq<(Seq<char>, Seq<char>)> {
    seq![
        ("autumn"@, "Autumn"@),
        ("diana"@, "Diana"@),
        ("hannah"@, "Hannah"@),
        ("austin"@, "Austin"@),
        ("daniel"@, "Daniel"@),
        ("troy"@, "Troy"@),
    ]
}

fn cloud_voice(id: &str, name: &str) -> (v: VoiceInfo)
    ensures
        v.id@ == id@,
        v.name@ == name@,
        v.engine@ == "cloud"@,
{
    VoiceInfo { id: id.to_owned(), name: name.to_owned(), engine: String::from_str("cloud") }
}

/// The voices the cloud engine offers.
pub fn cloud_voices() -> (r: Vec<VoiceInfo>)
    ensures
        r.len() == orpheus_voices().len(),
        forall|i: int|
            0 <= i < r.len() ==> (#[trigger] r[i]).id@ == orpheus_voices()[i].0 && r[i].name@
                == orpheus_voices()[i].1 && r[i].engine@ == "cloud"@,
{
    let mut r: Vec<VoiceInfo> = Vec::new();
    r.push(cloud_voice("autumn", "Autumn"));
    r.push(cloud_voice("diana", "Diana"));
    r.push(cloud_voice("hannah", "Hannah"));
    r.push(cloud_voice("austin", "Austin"));
    r.push(cloud_voice("daniel", "Daniel"));
    r.push(cloud_voice("troy", "Troy"));
    r
}

/// Which of the local engine's voices, by their ids `ids`, to switch to for
/// the requested voice id `wanted`: the first with that id. None when
/// `wanted` is empty (the current voice stays) or when no voice has that id.
pub fn find_voice(ids: &Vec<String>, wanted: &str) -> (r: Option<usize>)
    ensures
        match r {
            Some(i) => {
                &&& wanted@.len() > 0
                &&& i < ids.len()
                &&& ids[i as int]@ == wanted@
                &&& forall|j: int| 0 <= j < i ==> (#[trigger] ids[j])@ != wanted@
            },
            None => wanted@.len() == 0 || forall|j: int|
                0 <= j < ids.len() ==> (#[trigger] ids[j])@ != wanted@,
        },
{
    proof {
        reveal_strlit("");
    }
    if same_text(wanted, "") {
        return None;
    }
    assert(wanted@.len() == 0 ==> wanted@ =~= ""@);
    let mut i: usize = 0;
    while i < ids.len()
        invariant
            i <= ids.len(),
            wanted@.len() > 0,
            forall|j: int| 0 <= j < i ==> (#[trigger] ids[j])@ != wanted@,
        decreases ids.len() - i,
    {
        if same_text(ids[i].as_str(), wanted) {
            return Some(i);
        }
        i += 1;
    }
    None
}

fn local_voice(id: &str, name: &str) -> (v: VoiceInfo)
    ensures
        v.id@ == id@,
        v.name@ == name@,
        v.engine@ == "local"@,
{
    VoiceInfo { id: id.to_owned(), name: name.to_owned(), engine: String::from_str("local") }
}

/// The local engine's voices, given as (id, display name), listed for the
/// user in the same order.
pub fn local_voices(voices: &Vec<(String, String)>) -> (r: Vec<VoiceInfo>)
    ensures
        r.len() == voices.len(),
        forall|i: int|
            0 <= i < r.len() ==> (#[trigger] r[i]).id@ == voices[i].0@ && r[i].name@
                == voices[i].1@ && r[i].engine@ == "local"@,
{
    let mut r: Vec<VoiceInfo> = Vec::new();
    let mut i: usize = 0;
    while i < voices.len()
        invariant
            i <= voices.len(),
            r.len() == i,
            forall|j: int|
                0 <= j < i ==> (#[trigger] r[j]).id@ == voices[j].0@ && r[j].name@ == voices[j].1@
                    && r[j].engine@ == "local"@,
        decreases voices.len() - i,
    {
        let v = local_voice(voices[i].0.as_str(), voices[i].1.as_str());
        r.push(v);
        i += 1;
    }
    r
}

/// How a text is to be spoken.
pub enum SpeechPlan {
    /// By the operating system's voice, at `rate` words per minute.
    Local { text: String, voice: String, rate: u32 },
    /// By Orpheus, one request per chunk, played back at the speed that
    /// `rate` words per minute asks for.
    Cloud { chunks: Vec<String>, api_key: String, voice: String, rate: u32 },
}

/// Synthesizes/plays `text` per the user's engine choice: the local engine
/// speaks the whole text; the cloud engine gets it in chunks that fit
/// Orpheus's per-request limit.
pub fn plan_speech(settings: &Settings, text: String) -> (p: SpeechPlan)
    ensures
        match p {
            SpeechPlan::Local { text: t, voice, rate } => {
                &&& settings.tts_engine@ != "cloud"@
                &&& t@ == text@
                &&& voice@ == voice_for_engine(*settings)
                &&& rate == settings.tts_rate
            },
            SpeechPlan::Cloud { chunks, api_key, voice, rate } => {
                &&& settings.tts_engine@ == "cloud"@
                &&& string_views(chunks@) == text_chunks(text@, ORPHEUS_MAX_CHARS as nat)
                &&& all_within(string_views(chunks@), ORPHEUS_MAX_CHARS as nat)
                &&& api_key@ == settings.groq_api_key@
                &&& voice@ == voice_for_engine(*settings)
                &&& rate == settings.tts_rate
            },
        },
{
    let voice = settings.tts_voice_for_engine().to_owned();
    match TtsEngine::from_settings(settings) {
        TtsEngine::Local => SpeechPlan::Local { text, voice, rate: settings.tts_rate },
        TtsEngine::Cloud => {
            let chunks = chunk_text(text.as_str(), ORPHEUS_MAX_CHARS);
            SpeechPlan::Cloud {
                chunks,
                api_key: settings.groq_api_key.clone(),
                voice,
                rate: settings.tts_rate,
            }
        },
    }
}

/// What the read-aloud hotkey does.
#[derive(Debug, Clone, Copy, PartialEq, Eq, Structural)]
pub enum SpeakToggle {
    /// Stop the speech in progress.
    Stop,
    /// Read-aloud is turned off: do nothing.
    Ignore,
    /// Capture the selected text and read it.
    ReadSelection,
}

/// Toggle speak/stop: stops when speaking; otherwise reads the selection if
/// read-aloud is enabled.
pub fn toggle_speak_step(speaking: bool, tts_enabled: bool) -> (r: SpeakToggle)
    ensures
        r == (if speaking {
            SpeakToggle::Stop
        } else if !tts_enabled {
            SpeakToggle::Ignore
        } else {
            SpeakToggle::ReadSelection
        }),
{
    if speaking {
        SpeakToggle::Stop
    } else if !tts_enabled {
        SpeakToggle::Ignore
    } else {
        SpeakToggle::ReadSelection
    }
}

/// Whether a captured selection has anything to read: it is not blank.
pub fn has_text_to_read(text: &str) -> (r: bool)
    ensures
        r == (trim(text@).len() > 0),
{
    let t = trimmed(text);
    t.unicode_len() > 0
}

/// Accepts `hotkey` as the new read-aloud hotkey only when it differs from the
/// dictation hotkey.
pub fn check_tts_hotkey(hotkey: &str, dictation_hotkey: &str) -> (r: Result<(), String>)
    ensures
        r is Ok <==> hotkey@ != dictation_hotkey@,
        r matches Err(e) ==> e@ == "TTS hotkey must be different from the dictation hotkey"@,
{
    if same_text(hotkey, dictation_hotkey) {
        Err(String::from_str("TTS hotkey must be different from the dictation hotkey"))
    } else {
        Ok(())
    }
}

} // verus!
