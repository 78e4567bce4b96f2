//! What the application decides: the hotkey rules, the recording pipeline
//! as a state machine that the application drives, and model downloads.
use vstd::prelude::*;

use crate::state::{status_after_start, status_after_stop, AppConfig, AppStatus, HotkeyMode, OutputMethod};
use crate::text::joined_path;
use crate::transcriber::{catalog, model_file_of, model_path, models_dir, models_dir_of};

verus! {

// ---------------------------------------------------------------------------
// Hotkey
// ---------------------------------------------------------------------------

/// What happened to the global hotkey.
#[derive(Clone, Copy, Debug, PartialEq, Eq, Structural)]
pub enum KeyEvent {
    Pressed,
    Released,
}

/// What a hotkey event asks of the recorder.
#[derive(Clone, Copy, Debug, PartialEq, Eq, Structural)]
pub enum ShortcutAction {
    StartRecording,
    StopRecording,
    Ignore,
}

/// In push-to-talk mode a press starts and a release stops; in toggle mode
/// only presses count, starting when idle and stopping while recording.
pub open spec fn shortcut_response(mode: HotkeyMode, key: KeyEvent, status: AppStatus) -> ShortcutAction {
    match mode {
        HotkeyMode::PushToTalk => match key {
            KeyEvent::Pressed => ShortcutAction::StartRecording,
            KeyEvent::Released => ShortcutAction::StopRecording,
        },
        HotkeyMode::Toggle => if key == KeyEvent::Pressed && status == AppStatus::Idle {
            ShortcutAction::StartRecording
        } else if key == KeyEvent::Pressed && status == AppStatus::Recording {
            ShortcutAction::StopRecording
        } else {
            ShortcutAction::Ignore
        },
    }
}

/// The response to a hotkey event (see `shortcut_response`).
pub fn shortcut_action(mode: HotkeyMode, key: KeyEvent, status: AppStatus) -> (action: ShortcutAction)
    ensures
        action == shortcut_response(mode, key, status),
{
    match mode {
        HotkeyMode::PushToTalk => match key {
            KeyEvent::Pressed => ShortcutAction::StartRecording,
            KeyEvent::Released => ShortcutAction::StopRecording,
        },
        HotkeyMode::Toggle => {
            if key == KeyEvent::Pressed && status == AppStatus::Idle {
                ShortcutAction::StartRecording
            } else if key == KeyEvent::Pressed && status == AppStatus::Recording {
                ShortcutAction::StopRecording
            } else {
                ShortcutAction::Ignore
            }
        },
    }
}

/// The hotkey rules: in push-to-talk mode a press always asks to start and a
/// release always asks to stop; in toggle mode a press asks to start exactly
/// when the application is idle and to stop exactly when it is recording,
/// and a release never asks for anything.
pub proof fn lemma_hotkey_rules(mode: HotkeyMode, key: KeyEvent, status: AppStatus)
    ensures
        mode == HotkeyMode::PushToTalk && key == KeyEvent::Pressed ==> shortcut_response(mode, key, status)
            == ShortcutAction::StartRecording,
        mode == HotkeyMode::PushToTalk && key == KeyEvent::Released ==> shortcut_response(mode, key, status)
            == ShortcutAction::StopRecording,
        mode == HotkeyMode::Toggle ==> {
            &&& (shortcut_response(mode, key, status) == ShortcutAction::StartRecording) == (key
                == KeyEvent::Pressed && status == AppStatus::Idle)
            &&& (shortcut_response(mode, key, status) == ShortcutAction::StopRecording) == (key
                == KeyEvent::Pressed && status == AppStatus::Recording)
        },
{
}

/// The status after the recorder carries out `action`.
pub open spec fn status_after_action(status: AppStatus, action: ShortcutAction) -> AppStatus {
    match action {
        ShortcutAction::StartRecording => status_after_start(status),
        ShortcutAction::StopRecording => status_after_stop(status),
        ShortcutAction::Ignore => status,
    }
}

/// The status after the hotkey event `key` in `mode`.
pub open spec fn status_after_key(mode: HotkeyMode, key: KeyEvent, status: AppStatus) -> AppStatus {
    status_after_action(status, shortcut_response(mode, key, status))
}

/// In either mode one full use of the hotkey from `Idle` (press and release
/// in push-to-talk, two presses in toggle mode) ends with the recording
/// handed to transcription; in toggle mode releases do nothing; and no
/// hotkey event disturbs a transcription in progress.
pub proof fn lemma_hotkey_cycles(mode: HotkeyMode, key: KeyEvent)
    ensures
        status_after_key(
            HotkeyMode::PushToTalk,
            KeyEvent::Released,
            status_after_key(HotkeyMode::PushToTalk, KeyEvent::Pressed, AppStatus::Idle),
        ) == AppStatus::Transcribing,
        status_after_key(
            HotkeyMode::Toggle,
            KeyEvent::Pressed,
            status_after_key(HotkeyMode::Toggle, KeyEvent::Pressed, AppStatus::Idle),
        ) == AppStatus::Transcribing,
        forall|s: AppStatus| status_after_key(HotkeyMode::Toggle, KeyEvent::Released, s) == s,
        status_after_key(mode, key, AppStatus::Transcribing) == AppStatus::Transcribing,
        status_after_key(mode, key, AppStatus::LoadingModel) == AppStatus::LoadingModel,
{
}

// ---------------------------------------------------------------------------
// Model downloads
// ---------------------------------------------------------------------------

/// One progress report of a model download.
#[derive(Clone, Debug)]
pub struct DownloadProgress {
    pub model: String,
    pub progress: u8,
    pub downloaded: u64,
    pub total: u64,
}

/// The percentage reported after `downloaded` of `total` bytes, kept to its
/// low eight bits as a `u8`; `0` when the size is unknown (`total == 0`).
pub open spec fn percent_of(downloaded: u64, total: u64) -> u8 {
    if total > 0 {
        (((downloaded as int) * 100 / (total as int)) % 256) as u8
    } else {
        0
    }
}

/// The percentage reported after `downloaded` of `total` bytes (see
/// `percent_of`).
pub fn progress_percent(downloaded: u64, total: u64) -> (percent: u8)
    requires
        total > 0 ==> downloaded * 100 <= u64::MAX,
    ensures
        percent == percent_of(downloaded, total),
{
    if total > 0 {
        let p: u64 = downloaded * 100 / total;
        assert(p as u8 == p % 256) by (bit_vector);
        p as u8
    } else {
        0
    }
}

/// While a download stays within its announced size the percentage never
/// exceeds 100, never goes down as bytes arrive, and is 100 exactly when
/// every byte has arrived.
pub proof fn lemma_progress_within_bounds(earlier: u64, later: u64, total: u64)
    requires
        total > 0,
        earlier <= later <= total,
    ensures
        percent_of(later, total) <= 100,
        percent_of(earlier, total) <= percent_of(later, total),
        (percent_of(later, total) == 100) == (later == total),
        percent_of(later, total) * (total as int) <= 100 * (later as int) < (percent_of(later, total)
            + 1) * (total as int),
{
    let t = total as int;
    let e = earlier as int;
    let l = later as int;
    assert(l * 100 / t <= 100) by (nonlinear_arith)
        requires
            l <= t,
            t > 0,
    ;
    assert(0 <= e * 100 / t <= l * 100 / t) by (nonlinear_arith)
        requires
            0 <= e <= l,
            t > 0,
    ;
    assert(l < t ==> l * 100 / t < 100) by (nonlinear_arith)
        requires
            t > 0,
            l >= 0,
    ;
    assert(l == t ==> l * 100 / t == 100) by (nonlinear_arith)
        requires
            t > 0,
    ;
    let q = l * 100 / t;
    assert(q * t <= 100 * l < (q + 1) * t) by (nonlinear_arith)
        requires
            t > 0,
            l >= 0,
            q == l * 100 / t,
    ;
    assert(percent_of(later, total) == q);
}

/// Counts the bytes of one model download and produces its progress
/// reports.
pub struct DownloadTracker {
    model: String,
    downloaded: u64,
    total: u64,
}

impl DownloadTracker {
    /// The model being downloaded.
    pub closed spec fn model(self) -> Seq<char> {
        self.model@
    }

    /// Bytes received so far.
    pub closed spec fn received(self) -> u64 {
        self.downloaded
    }

    /// The announced size in bytes, `0` when unknown.
    pub closed spec fn size(self) -> u64 {
        self.total
    }

    /// A tracker for a download of `model` announced as `total` bytes
    /// (`0` when the size is unknown); nothing is received yet.
    pub fn new(model: String, total: u64) -> (t: Self)
        ensures
            t.model() == model@,
            t.received() == 0,
            t.size() == total,
    {
        DownloadTracker { model, downloaded: 0, total }
    }

    /// Bytes received so far.
    pub fn downloaded(&self) -> (n: u64)
        ensures
            n == self.received(),
    {
        self.downloaded
    }

    /// Counts a chunk of `len` bytes and reports the progress.
    pub fn record_chunk(&mut self, len: u64) -> (report: DownloadProgress)
        requires
            old(self).received() + len <= u64::MAX,
            old(self).size() > 0 ==> (old(self).received() + len) * 100 <= u64::MAX,
        ensures
            final(self).model() == old(self).model(),
            final(self).size() == old(self).size(),
            final(self).received() == old(self).received() + len,
            report.model@ == old(self).model(),
            report.downloaded == final(self).received(),
            report.total == old(self).size(),
            report.progress == percent_of(final(self).received(), old(self).size()),
            old(self).size() > 0 && final(self).received() <= old(self).size() ==> {
                &&& report.progress <= 100
                &&& report.progress >= percent_of(old(self).received(), old(self).size())
            },
            old(self).size() == 0 ==> report.progress == 0,
    {
        proof {
            if self.total > 0 && self.downloaded + len <= self.total {
                lemma_progress_within_bounds(self.downloaded, (self.downloaded + len) as u64, self.total);
            }
        }
        self.downloaded = self.downloaded + len;
        let progress = progress_percent(self.downloaded, self.total);
        DownloadProgress {
            model: self.model.clone(),
            progress,
            downloaded: self.downloaded,
            total: self.total,
        }
    }

    /// The closing report: 100 %, with the byte counts reached.
    pub fn finish(self) -> (report: DownloadProgress)
        ensures
            report.model@ == self.model(),
            report.progress == 100,
            report.downloaded == self.received(),
            report.total == self.size(),
    {
        DownloadProgress {
            model: self.model,
            progress: 100,
            downloaded: self.downloaded,
            total: self.total,
        }
    }
}

/// The model fetched on first run when no model has been downloaded yet:
/// the model of the default settings.
pub open spec fn first_run_model() -> Seq<char> {
    "ggml-base"@
}

/// Which model to fetch on first run: the default model when none of the
/// listed models is downloaded, nothing otherwise.
pub fn model_to_fetch_on_first_run(models: &[crate::transcriber::ModelInfo]) -> (fetch: Option<
    String,
>)
    ensures
        fetch is Some <==> forall|i: int| 0 <= i < models@.len() ==> !(#[trigger] models@[i]).downloaded,
        fetch is Some ==> fetch->Some_0@ == first_run_model(),
{
    let mut i: usize = 0;
    while i < models.len()
        invariant
            i <= models@.len(),
            forall|k: int| 0 <= k < i ==> !(#[trigger] models@[k]).downloaded,
        decreases models@.len() - i,
    {
        if models[i].downloaded {
            return None;
        }
        i = i + 1;
    }
    Some(String::from_str("ggml-base"))
}

/// Where a model download comes from and goes to.
#[derive(Clone, Debug)]
pub struct DownloadPlan {
    pub url: String,
    pub dir: String,
    pub dest: String,
}

/// The position of the first catalogue entry named `name`, if any.
pub open spec fn catalog_position(name: Seq<char>) -> Option<int> {
    if catalog()[0].0 == name {
        Some(0)
    } else if catalog()[1].0 == name {
        Some(1)
    } else if catalog()[2].0 == name {
        Some(2)
    } else if catalog()[3].0 == name {
        Some(3)
    } else {
        None
    }
}

/// No two catalogue entries share a name.
pub proof fn lemma_catalog_names_distinct()
    ensures
        forall|i: int, j: int|
            0 <= i < catalog().len() && 0 <= j < catalog().len() && i != j ==> #[trigger] catalog()[i].0
                != #[trigger] catalog()[j].0,
{
    reveal_strlit("ggml-tiny");
    reveal_strlit("ggml-base");
    reveal_strlit("ggml-small");
    reveal_strlit("ggml-medium");
    assert(catalog()[0].0[5] != catalog()[1].0[5]);
    assert(catalog()[0].0.len() != catalog()[2].0.len());
    assert(catalog()[0].0.len() != catalog()[3].0.len());
    assert(catalog()[1].0.len() != catalog()[2].0.len());
    assert(catalog()[1].0.len() != catalog()[3].0.len());
    assert(catalog()[2].0.len() != catalog()[3].0.len());
}

/// Every catalogue entry is found under its own name, at its own position:
/// planning the download of any listed model succeeds, with that entry's
/// address; and a name that no entry has is not found.
pub proof fn lemma_catalog_position_finds_each(name: Seq<char>)
    ensures
        forall|i: int| 0 <= i < catalog().len() ==> catalog_position(#[trigger] catalog()[i].0) == Some(i),
        (forall|i: int| 0 <= i < catalog().len() ==> #[trigger] catalog()[i].0 != name) ==> catalog_position(name) is None,
{
    lemma_catalog_names_distinct();
    assert(catalog_position(catalog()[0].0) == Some(0int));
    assert(catalog_position(catalog()[1].0) == Some(1int));
    assert(catalog_position(catalog()[2].0) == Some(2int));
    assert(catalog_position(catalog()[3].0) == Some(3int));
}

/// Plans the download of the model called `model_name` into the models
/// directory of `app_data_dir`. A name that is not in the catalogue is
/// answered with `Unknown model: <name>`.
pub fn plan_download(model_name: &str, app_data_dir: &str) -> (plan: Result<DownloadPlan, String>)
    ensures
        catalog_position(model_name@) is None ==> plan is Err && plan->Err_0@ == "Unknown model: "@
            + model_name@,
        catalog_position(model_name@) is Some ==> {
            let i = catalog_position(model_name@)->Some_0;
            &&& plan is Ok
            &&& plan->Ok_0.url@ == catalog()[i].3
            &&& plan->Ok_0.dir@ == models_dir_of(app_data_dir@)
            &&& plan->Ok_0.dest@ == model_file_of(models_dir_of(app_data_dir@), model_name@)
        },
        forall|i: int|
            0 <= i < catalog().len() && #[trigger] catalog()[i].0 == model_name@ ==> plan is Ok
                && plan->Ok_0.url@ == catalog()[i].3,
        plan is Err ==> forall|i: int| 0 <= i < catalog().len() ==> #[trigger] catalog()[i].0 != model_name@,
{
    proof {
        lemma_catalog_names_distinct();
    }
    let entries = crate::transcriber::model_catalog();
    let wanted = String::from_str(model_name);
    let mut i: usize = 0;
    while i < entries.len()
        invariant
            i <= entries@.len(),
            entries@.len() == catalog().len(),
            wanted@ == model_name@,
            forall|k: int|
                0 <= k < entries@.len() ==> crate::transcriber::describes_entry(
                    #[trigger] entries@[k],
                    k,
                ),
            forall|k: int| 0 <= k < i ==> catalog()[k].0 != model_name@,
        decreases entries@.len() - i,
    {
        if entries[i].name == wanted {
            let dir = models_dir(app_data_dir);
            let dest = model_path(dir.as_str(), model_name);
            proof {
                lemma_catalog_names_distinct();
                assert(catalog()[i as int].0 == model_name@);
                assert forall|j: int|
                    0 <= j < catalog().len() && #[trigger] catalog()[j].0 == model_name@ implies j
                    == i by {
                    if j != i {
                        assert(catalog()[j].0 != catalog()[i as int].0);
                    }
                }
            }
            return Ok(DownloadPlan { url: entries[i].url.clone(), dir, dest });
        }
        i = i + 1;
    }
    Err(String::from_str("Unknown model: ").concat(model_name))
}

// ---------------------------------------------------------------------------
// Recording pipeline
// ---------------------------------------------------------------------------

/// Fewer captured samples than this are ignored. The count is taken at the
/// device's own sample rate, before resampling; at 16 kHz it is 0.2 s.
pub const MIN_CAPTURED_SAMPLES: usize = 3200;

/// Where a recording session stands: which answer it waits for next.
#[derive(Clone, Copy, Debug, PartialEq, Eq, Structural)]
pub enum SessionStage {
    /// Waiting for the microphone to start.
    Starting,
    /// Capturing; waiting for the next look at the application status.
    Recording,
    /// Waiting for the captured audio.
    Capturing,
    /// Waiting for the resampled audio's loudness verdict.
    Resampling,
    /// Waiting for the normalised, trimmed and padded audio.
    Conditioning,
    /// Waiting for the application's data directory.
    ResolvingModel,
    /// Waiting to learn whether the model file exists.
    CheckingModel,
    /// Waiting to learn whether the model is already in memory.
    CheckingCache,
    /// Waiting for the model to load.
    Loading,
    /// Waiting for the recogniser.
    Transcribing,
    /// Waiting for the text to reach the focused application.
    Delivering,
    /// Done; the application is back to idle.
    Finished,
}

/// An answer the application hands back to a recording session.
#[derive(Debug)]
pub enum SessionEvent {
    /// The microphone started, or could not start (with the reason).
    MicrophoneStarted(Result<(), String>),
    /// The application status as it is now.
    StatusPolled(AppStatus),
    /// The number of samples captured.
    Captured { samples: usize },
    /// Whether the resampled audio is quieter than the silence gate.
    Resampled { silent: bool },
    /// Whether nothing is left after trimming silence.
    Conditioned { empty: bool },
    /// The application's data directory.
    DataDirResolved(String),
    /// Whether the model file exists.
    ModelFilePresent(bool),
    /// Whether that model is already in memory.
    CacheChecked { loaded: bool },
    /// The model loaded, or could not load (with the reason).
    ModelLoaded(Result<(), String>),
    /// The recognised text, or the reason recognition failed.
    Transcribed(Result<String, String>),
    /// The text reached the focused application, or could not (with the
    /// reason).
    Delivered(Result<(), String>),
}

/// What a recording session asks the application to do next.
#[derive(Clone, Debug)]
pub enum SessionAction {
    /// Start capturing from this input device (the default one when `None`).
    StartMicrophone { device: Option<String> },
    /// Wait a moment, then report the application status.
    Wait,
    /// Stop capturing and report how many samples were captured.
    StopMicrophone,
    /// Resample to 16 kHz and report whether the audio is below the silence
    /// gate.
    Resample,
    /// Normalise, trim silence, pad, and report whether anything is left.
    Condition,
    /// Report the application's data directory.
    ResolveDataDir,
    /// Report whether the model file at `path` exists.
    CheckModelFile { path: String },
    /// Report whether the model at `path` is already in memory.
    CheckCache { path: String },
    /// Announce the loading status when `announce_loading`, announce
    /// transcription, and load the model at `path`.
    LoadModel { path: String, announce_loading: bool },
    /// Recognise the audio in `language` (detected when `None`).
    Transcribe { language: Option<String> },
    /// Publish `text` and deliver it to the focused application by `method`.
    Deliver { text: String, method: OutputMethod },
    /// Report `error` if there is one, then return the application to idle.
    Finish { error: Option<String> },
}

/// The event a stage waits for.
pub open spec fn awaits(stage: SessionStage, event: SessionEvent) -> bool {
    match stage {
        SessionStage::Starting => event is MicrophoneStarted,
        SessionStage::Recording => event is StatusPolled,
        SessionStage::Capturing => event is Captured,
        SessionStage::Resampling => event is Resampled,
        SessionStage::Conditioning => event is Conditioned,
        SessionStage::ResolvingModel => event is DataDirResolved,
        SessionStage::CheckingModel => event is ModelFilePresent,
        SessionStage::CheckingCache => event is CacheChecked,
        SessionStage::Loading => event is ModelLoaded,
        SessionStage::Transcribing => event is Transcribed,
        SessionStage::Delivering => event is Delivered,
        SessionStage::Finished => false,
    }
}

/// The order in which the stages are passed.
pub open spec fn stage_rank(stage: SessionStage) -> int {
    match stage {
        SessionStage::Starting => 0,
        SessionStage::Recording => 1,
        SessionStage::Capturing => 2,
        SessionStage::Resampling => 3,
        SessionStage::Conditioning => 4,
        SessionStage::ResolvingModel => 5,
        SessionStage::CheckingModel => 6,
        SessionStage::CheckingCache => 7,
        SessionStage::Loading => 8,
        SessionStage::Transcribing => 9,
        SessionStage::Delivering => 10,
        SessionStage::Finished => 11,
    }
}

/// One recording, from starting the microphone to returning to idle.
pub struct RecordingSession {
    stage: SessionStage,
    config: AppConfig,
    model_path: Option<String>,
}

/// `action` ends the session, reporting `error` (the message, if any).
pub open spec fn finishes_with(action: SessionAction, error: Option<Seq<char>>) -> bool {
    match action {
        SessionAction::Finish { error: reported } => match error {
            None => reported is None,
            Some(m) => reported is Some && reported->Some_0@ == m,
        },
        _ => false,
    }
}

/// The message given when the configured model has not been downloaded.
pub open spec fn missing_model_message(model: Seq<char>) -> Seq<char> {
    "Model '"@ + model + "' is not downloaded. Open Settings and download it first."@
}

impl RecordingSession {
    /// From the moment the model file is known until the end, it is kept.
    #[verifier::type_invariant]
    spec fn keeps_model_path(self) -> bool {
        6 <= stage_rank(self.stage) <= 10 ==> self.model_path is Some
    }

    /// The stage the session is at.
    pub closed spec fn stage(self) -> SessionStage {
        self.stage
    }

    /// The settings the session was started with.
    pub closed spec fn config(self) -> AppConfig {
        self.config
    }

    /// The model file, once it is known.
    pub closed spec fn model_path(self) -> Option<Seq<char>> {
        match self.model_path {
            Some(p) => Some(p@),
            None => None,
        }
    }

    /// What one answer does to the session: the session `after` the event
    /// and the `action` asked for next.
    pub open spec fn steps_to(self, event: SessionEvent, after: Self, action: SessionAction) -> bool {
        &&& after.config() == self.config()
        &&& !(event is DataDirResolved) ==> after.model_path() == self.model_path()
        &&& after.stage() == SessionStage::Finished <==> action is Finish
        &&& match event {
            SessionEvent::MicrophoneStarted(Err(reason)) => finishes_with(
                action,
                Some("Microphone error: "@ + reason@),
            ),
            SessionEvent::MicrophoneStarted(Ok(_)) => after.stage() == SessionStage::Recording
                && action is Wait,
            SessionEvent::StatusPolled(status) => if status == AppStatus::Recording {
                after.stage() == SessionStage::Recording && action is Wait
            } else if status == AppStatus::Transcribing {
                after.stage() == SessionStage::Capturing && action is StopMicrophone
            } else {
                finishes_with(action, None)
            },
            SessionEvent::Captured { samples } => if samples < MIN_CAPTURED_SAMPLES {
                finishes_with(action, None)
            } else {
                after.stage() == SessionStage::Resampling && action is Resample
            },
            SessionEvent::Resampled { silent } => if silent {
                finishes_with(action, None)
            } else {
                after.stage() == SessionStage::Conditioning && action is Condition
            },
            SessionEvent::Conditioned { empty } => if empty {
                finishes_with(action, None)
            } else {
                after.stage() == SessionStage::ResolvingModel && action is ResolveDataDir
            },
            SessionEvent::DataDirResolved(data_dir) => {
                let path = model_file_of(models_dir_of(data_dir@), self.config().model@);
                &&& after.stage() == SessionStage::CheckingModel
                &&& after.model_path() == Some(path)
                &&& action matches SessionAction::CheckModelFile { path: p } && p@ == path
            },
            SessionEvent::ModelFilePresent(present) => if present {
                &&& after.stage() == SessionStage::CheckingCache
                &&& after.model_path() == self.model_path()
                &&& action matches SessionAction::CheckCache { path: p } && Some(p@)
                    == self.model_path()
            } else {
                finishes_with(action, Some(missing_model_message(self.config().model@)))
            },
            SessionEvent::CacheChecked { loaded } => {
                &&& after.stage() == SessionStage::Loading
                &&& after.model_path() == self.model_path()
                &&& action matches SessionAction::LoadModel { path: p, announce_loading: a }
                    && Some(p@) == self.model_path() && a == !loaded
            },
            SessionEvent::ModelLoaded(Err(reason)) => finishes_with(
                action,
                Some("Failed to load model: "@ + reason@),
            ),
            SessionEvent::ModelLoaded(Ok(_)) => {
                &&& after.stage() == SessionStage::Transcribing
                &&& action matches SessionAction::Transcribe { language: l } && l
                    == self.config().language
            },
            SessionEvent::Transcribed(Ok(text)) => if text@.len() == 0 {
                finishes_with(action, None)
            } else {
                &&& after.stage() == SessionStage::Delivering
                &&& action matches SessionAction::Deliver { text: t, method: m } && t@ == text@ && m
                    == self.config().output_method
            },
            SessionEvent::Transcribed(Err(reason)) => finishes_with(
                action,
                Some("Transcription error: "@ + reason@),
            ),
            SessionEvent::Delivered(Ok(_)) => finishes_with(action, None),
            SessionEvent::Delivered(Err(reason)) => finishes_with(
                action,
                Some("Could not output text: "@ + reason@),
            ),
        }
    }

    /// Starts a session for a recording with settings `config` (the
    /// application has just moved to `Recording`): the first step is to
    /// start the configured microphone.
    pub fn start(config: AppConfig) -> (started: (Self, SessionAction))
        ensures
            started.0.stage() == SessionStage::Starting,
            started.0.config() == config,
            started.0.model_path() is None,
            started.1 matches SessionAction::StartMicrophone { device: d } && d
                == config.input_device,
    {
        let device = config.input_device.clone();
        (RecordingSession { stage: SessionStage::Starting, config, model_path: None }, SessionAction::StartMicrophone { device })
    }

    /// Whether the session waits for `event` now.
    pub fn expects(&self, event: &SessionEvent) -> (expected: bool)
        ensures
            expected == awaits(self.stage(), *event),
    {
        match self.stage {
            SessionStage::Starting => matches!(event, SessionEvent::MicrophoneStarted(_)),
            SessionStage::Recording => matches!(event, SessionEvent::StatusPolled(_)),
            SessionStage::Capturing => matches!(event, SessionEvent::Captured { .. }),
            SessionStage::Resampling => matches!(event, SessionEvent::Resampled { .. }),
            SessionStage::Conditioning => matches!(event, SessionEvent::Conditioned { .. }),
            SessionStage::ResolvingModel => matches!(event, SessionEvent::DataDirResolved(_)),
            SessionStage::CheckingModel => matches!(event, SessionEvent::ModelFilePresent(_)),
            SessionStage::CheckingCache => matches!(event, SessionEvent::CacheChecked { .. }),
            SessionStage::Loading => matches!(event, SessionEvent::ModelLoaded(_)),
            SessionStage::Transcribing => matches!(event, SessionEvent::Transcribed(_)),
            SessionStage::Delivering => matches!(event, SessionEvent::Delivered(_)),
            SessionStage::Finished => false,
        }
    }

    /// Whether the session is over.
    pub fn is_finished(&self) -> (finished: bool)
        ensures
            finished == (self.stage() == SessionStage::Finished),
    {
        self.stage == SessionStage::Finished
    }

    fn finish(&mut self, error: Option<String>) -> (action: SessionAction)
        ensures
            final(self).stage() == SessionStage::Finished,
            final(self).config() == old(self).config(),
            final(self).model_path() == old(self).model_path(),
            action == (SessionAction::Finish { error }),
    {
        self.stage = SessionStage::Finished;
        SessionAction::Finish { error }
    }

    /// Takes the application's answer to the last action and decides the
    /// next one (see `steps_to`).
    pub fn step(&mut self, event: SessionEvent) -> (action: SessionAction)
        requires
            awaits(old(self).stage(), event),
        ensures
            old(self).steps_to(event, *final(self), action),
            action matches SessionAction::Deliver { text: t, method: m } ==> {
                &&& m == old(self).config().output_method
                &&& t@.len() > 0
                &&& event matches SessionEvent::Transcribed(Ok(x)) && x@ == t@
            },
            action matches SessionAction::Transcribe { language: l } ==> l
                == old(self).config().language,
            final(self).config() == old(self).config(),
    {
        proof {
            use_type_invariant(&*self);
        }
        match event {
            SessionEvent::MicrophoneStarted(Err(reason)) => {
                self.finish(Some(String::from_str("Microphone error: ").concat(reason.as_str())))
            },
            SessionEvent::MicrophoneStarted(Ok(_)) => {
                self.stage = SessionStage::Recording;
                SessionAction::Wait
            },
            SessionEvent::StatusPolled(status) => {
                if status == AppStatus::Recording {
                    SessionAction::Wait
                } else if status == AppStatus::Transcribing {
                    self.stage = SessionStage::Capturing;
                    SessionAction::StopMicrophone
                } else {
                    self.finish(None)
                }
            },
            SessionEvent::Captured { samples } => {
                if samples < MIN_CAPTURED_SAMPLES {
                    self.finish(None)
                } else {
                    self.stage = SessionStage::Resampling;
                    SessionAction::Resample
                }
            },
            SessionEvent::Resampled { silent } => {
                if silent {
                    self.finish(None)
                } else {
                    self.stage = SessionStage::Conditioning;
                    SessionAction::Condition
                }
            },
            SessionEvent::Conditioned { empty } => {
                if empty {
                    self.finish(None)
                } else {
                    self.stage = SessionStage::ResolvingModel;
                    SessionAction::ResolveDataDir
                }
            },
            SessionEvent::DataDirResolved(data_dir) => {
                let dir = models_dir(data_dir.as_str());
                let path = model_path(dir.as_str(), self.config.model.as_str());
                self.model_path = Some(path.clone());
                self.stage = SessionStage::CheckingModel;
                SessionAction::CheckModelFile { path }
            },
            SessionEvent::ModelFilePresent(present) => {
                if present {
                    self.stage = SessionStage::CheckingCache;
                    SessionAction::CheckCache { path: self.known_model_path() }
                } else {
                    let msg = String::from_str("Model '").concat(self.config.model.as_str()).concat(
                        "' is not downloaded. Open Settings and download it first.",
                    );
                    self.finish(Some(msg))
                }
            },
            SessionEvent::CacheChecked { loaded } => {
                self.stage = SessionStage::Loading;
                SessionAction::LoadModel { path: self.known_model_path(), announce_loading: !loaded }
            },
            SessionEvent::ModelLoaded(Err(reason)) => {
                self.finish(Some(String::from_str("Failed to load model: ").concat(reason.as_str())))
            },
            SessionEvent::ModelLoaded(Ok(_)) => {
                self.stage = SessionStage::Transcribing;
                SessionAction::Transcribe { language: self.config.language.clone() }
            },
            SessionEvent::Transcribed(Ok(text)) => {
                if text.unicode_len() == 0 {
                    self.finish(None)
                } else {
                    self.stage = SessionStage::Delivering;
                    SessionAction::Deliver { text, method: self.config.output_method }
                }
            },
            SessionEvent::Transcribed(Err(reason)) => {
                self.finish(
                    Some(String::from_str("Transcription error: ").concat(reason.as_str())),
                )
            },
            SessionEvent::Delivered(Ok(_)) => self.finish(None),
            SessionEvent::Delivered(Err(reason)) => {
                self.finish(
                    Some(String::from_str("Could not output text: ").concat(reason.as_str())),
                )
            },
        }
    }

    /// Every answer a session accepts moves it to a later stage, except a
    /// status poll that finds the application still recording, which keeps
    /// it waiting; so apart from that wait a session ends after at most
    /// eleven steps. A finished session accepts no answer at all.
    pub proof fn lemma_session_advances(self, event: SessionEvent, after: Self, action: SessionAction)
        requires
            awaits(self.stage(), event),
            self.steps_to(event, after, action),
        ensures
            stage_rank(after.stage()) > stage_rank(self.stage()) || (event
                == SessionEvent::StatusPolled(AppStatus::Recording) && after.stage() == self.stage()
                && action is Wait),
            forall|e: SessionEvent| !awaits(SessionStage::Finished, e),
    {
    }

    /// How a session ends. It ends quietly (no error to report) exactly when
    /// the status poll finds the recording cancelled, the capture is shorter
    /// than `MIN_CAPTURED_SAMPLES`, the audio is below the silence gate,
    /// nothing is left after trimming, nothing was recognised, or the text
    /// was delivered. It ends with an error exactly when the microphone fails,
    /// the model file is missing, the model fails to load, recognition fails,
    /// or delivery fails. Every other answer lets it go on.
    pub proof fn lemma_session_outcomes(self, event: SessionEvent, after: Self, action: SessionAction)
        requires
            awaits(self.stage(), event),
            self.steps_to(event, after, action),
        ensures
            (action matches SessionAction::Finish { error: e } && e is None) <==> ({
                ||| event matches SessionEvent::StatusPolled(s) && s != AppStatus::Recording && s
                    != AppStatus::Transcribing
                ||| event matches SessionEvent::Captured { samples: n } && n < 3200
                ||| event matches SessionEvent::Resampled { silent: q } && q
                ||| event matches SessionEvent::Conditioned { empty: q } && q
                ||| event matches SessionEvent::Transcribed(Ok(t)) && t@.len() == 0
                ||| event matches SessionEvent::Delivered(Ok(_))
            }),
            (action matches SessionAction::Finish { error: e } && e is Some) <==> ({
                ||| event matches SessionEvent::MicrophoneStarted(Err(_))
                ||| event matches SessionEvent::ModelFilePresent(q) && !q
                ||| event matches SessionEvent::ModelLoaded(Err(_))
                ||| event matches SessionEvent::Transcribed(Err(_))
                ||| event matches SessionEvent::Delivered(Err(_))
            }),
    {
    }

    /// What a session asks for is taken from its settings and from the
    /// answers it got: text is delivered only when non-empty, exactly as
    /// recognised and by the configured output method; recognition runs in
    /// the configured language; the model file looked for is the configured
    /// model's file in the reported data directory; a finished session never
    /// asks for anything else; the settings never change.
    pub proof fn lemma_actions_follow_settings(self, event: SessionEvent, after: Self, action: SessionAction)
        requires
            self.steps_to(event, after, action),
        ensures
            after.config() == self.config(),
            action matches SessionAction::Deliver { text: t, method: m } ==> {
                &&& m == self.config().output_method
                &&& t@.len() > 0
                &&& event matches SessionEvent::Transcribed(Ok(x)) && x@ == t@
            },
            action matches SessionAction::Transcribe { language: l } ==> l == self.config().language,
            action matches SessionAction::CheckModelFile { path: p } ==> event matches SessionEvent::DataDirResolved(d)
                && p@ == joined_path(
                joined_path(d@, "models"@),
                self.config().model@ + ".bin"@,
            ),
            action is Finish <==> after.stage() == SessionStage::Finished,
    {
    }

    fn known_model_path(&self) -> (path: String)
        requires
            self.model_path() is Some,
        ensures
            Some(path@) == self.model_path(),
    {
        match &self.model_path {
            Some(p) => p.clone(),
            None => String::new(),
        }
    }
}

// ---------------------------------------------------------------------------
// Whole runs of a recording session
// ---------------------------------------------------------------------------

/// The number of answers in `events` that are not a status poll finding the
/// application still recording.
pub open spec fn advancing_steps(events: Seq<SessionEvent>) -> int
    decreases events.len(),
{
    if events.len() == 0 {
        0
    } else {
        advancing_steps(events.drop_last()) + if events.last() == SessionEvent::StatusPolled(
            AppStatus::Recording,
        ) {
            0int
        } else {
            1int
        }
    }
}

/// The session as it stands before answer `i` of a run that began at `start`.
pub open spec fn before_step(start: RecordingSession, sessions: Seq<RecordingSession>, i: int) -> RecordingSession {
    if i == 0 {
        start
    } else {
        sessions[i - 1]
    }
}

/// `sessions` and `actions` are what a session started as `start` becomes
/// and asks for when it is handed `events` one by one, each awaited.
pub open spec fn is_run(
    start: RecordingSession,
    sessions: Seq<RecordingSession>,
    events: Seq<SessionEvent>,
    actions: Seq<SessionAction>,
) -> bool {
    &&& sessions.len() == events.len()
    &&& actions.len() == events.len()
    &&& forall|i: int|
        0 <= i < events.len() ==> {
            &&& awaits(before_step(start, sessions, i).stage(), #[trigger] events[i])
            &&& before_step(start, sessions, i).steps_to(events[i], sessions[i], actions[i])
        }
}

/// Every run of a recording session stops only by finishing: a run can go
/// on exactly while its last action is not `Finish`, `Finish` is only ever
/// the last action of a run, and apart from status polls that find the
/// application still recording a run has at most eleven answers. `Finish`
/// is the action on which the application reports any error and returns to
/// `Idle` (`AppState::set_idle`), so every run that is not stuck waiting for
/// the recording to be stopped ends with the application idle.
pub proof fn lemma_run_ends_by_finishing(
    start: RecordingSession,
    sessions: Seq<RecordingSession>,
    events: Seq<SessionEvent>,
    actions: Seq<SessionAction>,
)
    requires
        start.stage() == SessionStage::Starting,
        is_run(start, sessions, events, actions),
    ensures
        forall|i: int| 0 <= i < actions.len() - 1 ==> !(#[trigger] actions[i] is Finish),
        actions.len() > 0 ==> (actions.last() is Finish <==> forall|e: SessionEvent|
            !awaits(sessions.last().stage(), e)),
        actions.len() > 0 ==> advancing_steps(events) <= stage_rank(sessions.last().stage()),
        advancing_steps(events) <= 11,
    decreases events.len(),
{
    let n = events.len();
    if n == 0 {
        return;
    }
    let ps = sessions.drop_last();
    let pe = events.drop_last();
    let pa = actions.drop_last();
    assert forall|i: int| 0 <= i < pe.len() implies {
        &&& awaits(before_step(start, ps, i).stage(), #[trigger] pe[i])
        &&& before_step(start, ps, i).steps_to(pe[i], ps[i], pa[i])
    } by {
        assert(before_step(start, ps, i) == before_step(start, sessions, i));
        assert(events[i] == pe[i]);
    }
    lemma_run_ends_by_finishing(start, ps, pe, pa);
    let prev = before_step(start, sessions, n - 1);
    assert(awaits(prev.stage(), events[n - 1]));
    prev.lemma_session_advances(events[n - 1], sessions[n - 1], actions[n - 1]);
    assert(pe =~= events.drop_last());
    if n > 1 {
        assert(prev == ps.last());
        assert(!(pa[n - 2] is Finish)) by {
            if pa[n - 2] is Finish {
                assert(ps.last().stage() == SessionStage::Finished);
            }
        }
        assert forall|i: int| 0 <= i < actions.len() - 1 implies !(#[trigger] actions[i] is Finish) by {
            assert(actions[i] == pa[i]);
        }
    }
    assert(actions.last() is Finish <==> sessions.last().stage() == SessionStage::Finished);
    if sessions.last().stage() != SessionStage::Finished {
        let s = sessions.last().stage();
        let witness = match s {
            SessionStage::Starting => SessionEvent::MicrophoneStarted(Ok(())),
            SessionStage::Recording => SessionEvent::StatusPolled(AppStatus::Idle),
            SessionStage::Capturing => SessionEvent::Captured { samples: 0 },
            SessionStage::Resampling => SessionEvent::Resampled { silent: true },
            SessionStage::Conditioning => SessionEvent::Conditioned { empty: true },
            SessionStage::ResolvingModel => SessionEvent::DataDirResolved(arbitrary()),
            SessionStage::CheckingModel => SessionEvent::ModelFilePresent(true),
            SessionStage::CheckingCache => SessionEvent::CacheChecked { loaded: true },
            SessionStage::Loading => SessionEvent::ModelLoaded(Ok(())),
            SessionStage::Transcribing => SessionEvent::Transcribed(arbitrary()),
            SessionStage::Delivering => SessionEvent::Delivered(Ok(())),
            SessionStage::Finished => SessionEvent::Delivered(Ok(())),
        };
        assert(awaits(s, witness));
    }
}

} // verus!
