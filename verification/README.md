# robin_lib

The verified core of Robin, a desktop dictation and read-aloud app.

`src/` holds the logic, each function with a Verus contract:

- `tts_groq/` — splitting text into Orpheus-sized chunks (sentence, then
  word, then character boundaries), the speech request, and repair of the
  streamed WAV header; the laws of chunking and of the header repair are
  proved beside them.
- `settings`, `history`, `engine`, `transcribe_local` — preferences, the
  capped newest-first history, the choice of transcription backend, model
  file names.
- `recording/`, `hotkey`, `tts`, `audio` — the dictation state machine and
  what hotkeys, observers and read-aloud do in each state.
- `markitdown`, `single_instance` — command lines and results of the Markdown
  converter, and the cleanup run at launch.
- `text`, `paths` — whitespace, trimming and path joining.

`app/` is the Tauri program around it: windows, tray, global shortcuts, audio
capture, Whisper, HTTP, files and processes.
