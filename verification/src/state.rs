//! Application status, user configuration and the shared application state.
use vstd::prelude::*;

verus! {

/// Whether the application is idle, capturing audio, transcribing it, or
/// loading a speech model.
#[derive(Clone, Copy, Debug, PartialEq, Eq, Structural)]
pub enum AppStatus {
    Idle,
    Recording,
    Transcribing,
    LoadingModel,
}

/// How the global hotkey drives recording.
#[derive(Clone, Copy, Debug, PartialEq, Eq, Structural)]
pub enum HotkeyMode {
    /// Hold the key to record, release it to transcribe.
    PushToTalk,
    /// Press once to start, press again to stop.
    Toggle,
}

/// How recognised text is delivered to the focused application.
#[derive(Clone, Copy, Debug, PartialEq, Eq, Structural)]
pub enum OutputMethod {
    /// Put the text on the clipboard and send Ctrl+V.
    Paste,
    /// Type the text key by key.
    Type,
}

/// User settings.
#[derive(Clone, Debug)]
pub struct AppConfig {
    pub hotkey: String,
    pub mode: HotkeyMode,
    pub model: String,
    pub language: Option<String>,
    pub output_method: OutputMethod,
    pub input_device: Option<String>,
}

impl AppConfig {
    /// The settings a fresh installation starts with: F9, push-to-talk,
    /// the base model, automatic language, paste output, default microphone.
    pub open spec fn is_default(&self) -> bool {
        &&& self.hotkey@ == "F9"@
        &&& self.mode == HotkeyMode::PushToTalk
        &&& self.model@ == "ggml-base"@
        &&& self.language is None
        &&& self.output_method == OutputMethod::Paste
        &&& self.input_device is None
    }
}

impl Default for AppConfig {
    fn default() -> (config: Self)
        ensures
            config.is_default(),
    {
        AppConfig {
            hotkey: String::from_str("F9"),
            mode: HotkeyMode::PushToTalk,
            model: String::from_str("ggml-base"),
            language: None,
            output_method: OutputMethod::Paste,
            input_device: None,
        }
    }
}

/// The status after a request to start recording: only an idle
/// application starts; any other status is left as it is.
pub open spec fn status_after_start(status: AppStatus) -> AppStatus {
    if status == AppStatus::Idle {
        AppStatus::Recording
    } else {
        status
    }
}

/// The status after a request to stop recording: only a recording
/// application moves on to transcription; any other status is left as it is.
pub open spec fn status_after_stop(status: AppStatus) -> AppStatus {
    if status == AppStatus::Recording {
        AppStatus::Transcribing
    } else {
        status
    }
}

/// State shared between the hotkey handler, the commands and the
/// recording worker.
pub struct AppState {
    pub status: AppStatus,
    pub config: AppConfig,
}

impl AppState {
    /// A new state for the given settings; the application starts idle.
    pub fn new(config: AppConfig) -> (state: Self)
        ensures
            state.status == AppStatus::Idle,
            state.config == config,
    {
        AppState { status: AppStatus::Idle, config }
    }

    /// Claims the recorder: moves from `Idle` to `Recording` and answers
    /// `true`; in any other status nothing changes and the answer is `false`.
    pub fn begin_recording(&mut self) -> (started: bool)
        ensures
            started == (old(self).status == AppStatus::Idle),
            final(self).status == status_after_start(old(self).status),
            final(self).config == old(self).config,
    {
        if self.status != AppStatus::Idle {
            return false;
        }
        self.status = AppStatus::Recording;
        true
    }

    /// Ends capture: moves from `Recording` to `Transcribing` and answers
    /// `true`; in any other status nothing changes and the answer is `false`.
    pub fn finish_recording(&mut self) -> (stopped: bool)
        ensures
            stopped == (old(self).status == AppStatus::Recording),
            final(self).status == status_after_stop(old(self).status),
            final(self).config == old(self).config,
    {
        if self.status != AppStatus::Recording {
            return false;
        }
        self.status = AppStatus::Transcribing;
        true
    }

    /// Returns to `Idle`, whatever the status was.
    pub fn set_idle(&mut self)
        ensures
            final(self).status == AppStatus::Idle,
            final(self).config == old(self).config,
    {
        self.status = AppStatus::Idle;
    }

    /// The current settings.
    pub fn config(&self) -> (config: &AppConfig)
        ensures
            *config == self.config,
    {
        &self.config
    }

    /// Replaces the settings; the status is untouched.
    pub fn set_config(&mut self, config: AppConfig)
        ensures
            final(self).config == config,
            final(self).status == old(self).status,
    {
        self.config = config;
    }
}

/// A recording cycle: from `Idle`, a start then a stop leads to
/// `Transcribing`; a stop before any start changes nothing; a second start
/// while recording or transcribing changes nothing.
pub proof fn lemma_recording_cycle()
    ensures
        status_after_stop(status_after_start(AppStatus::Idle)) == AppStatus::Transcribing,
        status_after_stop(AppStatus::Idle) == AppStatus::Idle,
        status_after_start(AppStatus::Recording) == AppStatus::Recording,
        status_after_start(AppStatus::Transcribing) == AppStatus::Transcribing,
        status_after_start(AppStatus::LoadingModel) == AppStatus::LoadingModel,
{
}

/// Starting is refused in every status but `Idle`, and stopping in every
/// status but `Recording`: neither request ever changes another status.
pub proof fn lemma_requests_only_act_on_their_status(status: AppStatus)
    ensures
        status != AppStatus::Idle ==> status_after_start(status) == status,
        status != AppStatus::Recording ==> status_after_stop(status) == status,
{
}

} // verus!
