//! User preferences.
use vstd::prelude::*;

use crate::paths::{has_verbatim_prefix, join_path, path_joined};
use crate::text::same_text;

verus! {

/// User preferences for dictation and read-aloud.
#[derive(Debug, Clone, PartialEq)]
pub struct Settings {
    pub microphone: String,
    pub engine: String,
    pub whisper_model: String,
    pub groq_api_key: String,
    pub recording_mode: String,
    pub hotkey: String,
    pub onboarding_done: bool,
    pub tts_enabled: bool,
    pub tts_engine: String,
    pub tts_hotkey: String,
    /// Last-selected voice per engine. Local (OS) and cloud (Orpheus) use
    /// disjoint voice-id namespaces, so a single shared field would be
    /// clobbered every time the user switches engines. Persisting one per
    /// engine lets each remember its own selection across restarts.
    pub tts_voice_local: String,
    pub tts_voice_cloud: String,
    pub tts_rate: u32,
}

/// The read-aloud engine used when none is stored.
pub fn default_tts_engine() -> (s: String)
    ensures
        s@ == "local"@,
{
    String::from_str("local")
}

/// The read-aloud hotkey used when none is stored.
pub fn default_tts_hotkey() -> (s: String)
    ensures
        s@ == "CmdOrCtrl+Shift+R"@,
{
    String::from_str("CmdOrCtrl+Shift+R")
}

/// The speaking rate, in words per minute, used when none is stored.
pub fn default_tts_rate() -> (r: u32)
    ensures
        r == 175,
{
    175
}

/// Whether `s` holds the default value of every field.
pub open spec fn is_default_settings(s: Settings) -> bool {
    &&& s.microphone@ == "default"@
    &&& s.engine@ == "local"@
    &&& s.whisper_model@ == "small"@
    &&& s.groq_api_key@ == Seq::<char>::empty()
    &&& s.recording_mode@ == "toggle"@
    &&& s.hotkey@ == "CmdOrCtrl+Shift+Space"@
    &&& !s.onboarding_done
    &&& !s.tts_enabled
    &&& s.tts_engine@ == "local"@
    &&& s.tts_hotkey@ == "CmdOrCtrl+Shift+R"@
    &&& s.tts_voice_local@ == Seq::<char>::empty()
    &&& s.tts_voice_cloud@ == Seq::<char>::empty()
    &&& s.tts_rate == 175
}

impl Default for Settings {
    fn default() -> (s: Self)
        ensures
            is_default_settings(s),
    {
        Settings {
            microphone: String::from_str("default"),
            engine: String::from_str("local"),
            whisper_model: String::from_str("small"),
            groq_api_key: String::new(),
            recording_mode: String::from_str("toggle"),
            hotkey: String::from_str("CmdOrCtrl+Shift+Space"),
            onboarding_done: false,
            tts_enabled: false,
            tts_engine: default_tts_engine(),
            tts_hotkey: default_tts_hotkey(),
            tts_voice_local: String::new(),
            tts_voice_cloud: String::new(),
            tts_rate: default_tts_rate(),
        }
    }
}

/// The voice stored for the selected read-aloud engine: the cloud voice when
/// the engine is `"cloud"`, the local voice otherwise.
pub open spec fn voice_for_engine(s: Settings) -> Seq<char> {
    if s.tts_engine@ == "cloud"@ {
        s.tts_voice_cloud@
    } else {
        s.tts_voice_local@
    }
}

/// The voice of the cloud engine is the stored cloud voice, and that of any
/// other engine the stored local voice, whatever the other voice field holds:
/// changing the voice of the engine not selected changes nothing.
pub proof fn lemma_voice_per_engine(s: Settings, other: Seq<char>)
    ensures
        s.tts_engine@ == "cloud"@ ==> voice_for_engine(s) == s.tts_voice_cloud@,
        s.tts_engine@ != "cloud"@ ==> voice_for_engine(s) == s.tts_voice_local@,
        s.tts_engine@ == "cloud"@ ==> voice_for_engine(s) == voice_for_engine(
            Settings { tts_voice_local: s.tts_voice_local, ..s },
        ),
{
}

impl Settings {
    /// The voice id to use for the currently selected TTS engine. Local and
    /// cloud voices live in separate namespaces, so each is stored separately.
    pub fn tts_voice_for_engine(&self) -> (r: &str)
        ensures
            r@ == voice_for_engine(*self),
            self.tts_engine@ == "cloud"@ ==> r@ == self.tts_voice_cloud@,
            self.tts_engine@ != "cloud"@ ==> r@ == self.tts_voice_local@,
    {
        if same_text(self.tts_engine.as_str(), "cloud") {
            self.tts_voice_cloud.as_str()
        } else {
            self.tts_voice_local.as_str()
        }
    }

    /// Where the settings of the app directory `app_dir` are stored.
    pub fn config_path(app_dir: &str) -> (r: String)
        ensures
            !has_verbatim_prefix(app_dir@) ==> path_joined(r@, app_dir@, "config.json"@),
    {
        proof {
            reveal_strlit("config.json");
        }
        join_path(app_dir, "config.json")
    }
}

} // verus!
