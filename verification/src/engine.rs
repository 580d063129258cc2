//! Choice of the transcription backend.
use vstd::prelude::*;

use crate::paths::{has_verbatim_prefix, join_path, path_joined};
use crate::settings::Settings;
use crate::text::same_text;
use crate::transcribe_local::{model_file_name, model_filename};

verus! {

/// Strategy enum for transcription backends.
pub enum Engine {
    Local { model_path: String },
    Cloud { api_key: String },
}

impl Engine {
    /// Factory: build the correct engine from current settings.
    /// Falls back to Local for any unrecognised engine string.
    pub fn from_settings(settings: &Settings, app_dir: &str) -> (e: Engine)
        ensures
            match e {
                Engine::Cloud { api_key } => settings.engine@ == "cloud"@ && api_key@
                    == settings.groq_api_key@,
                Engine::Local { model_path } => settings.engine@ != "cloud"@ && (!has_verbatim_prefix(
                    app_dir@,
                ) ==> path_joined(
                    model_path@,
                    app_dir@,
                    model_file_name(settings.whisper_model@),
                )),
            },
    {
        if same_text(settings.engine.as_str(), "cloud") {
            Engine::Cloud { api_key: settings.groq_api_key.clone() }
        } else {
            let name = model_filename(settings.whisper_model.as_str());
            proof {
                reveal_strlit("ggml-");
            }
            Engine::Local { model_path: join_path(app_dir, name.as_str()) }
        }
    }
}

} // verus!
