use talka::commands::{
    model_to_fetch_on_first_run, plan_download, progress_percent, shortcut_action, DownloadTracker, KeyEvent, RecordingSession,
    SessionAction, SessionEvent, ShortcutAction,
};
use talka::state::{AppConfig, AppState, AppStatus, HotkeyMode, OutputMethod};

#[test]
fn push_to_talk_keys() {
    for st in [AppStatus::Idle, AppStatus::Recording, AppStatus::Transcribing] {
        assert_eq!(shortcut_action(HotkeyMode::PushToTalk, KeyEvent::Pressed, st), ShortcutAction::StartRecording);
        assert_eq!(shortcut_action(HotkeyMode::PushToTalk, KeyEvent::Released, st), ShortcutAction::StopRecording);
    }
}

#[test]
fn toggle_keys() {
    assert_eq!(shortcut_action(HotkeyMode::Toggle, KeyEvent::Pressed, AppStatus::Idle), ShortcutAction::StartRecording);
    assert_eq!(shortcut_action(HotkeyMode::Toggle, KeyEvent::Pressed, AppStatus::Recording), ShortcutAction::StopRecording);
    assert_eq!(shortcut_action(HotkeyMode::Toggle, KeyEvent::Pressed, AppStatus::Transcribing), ShortcutAction::Ignore);
    assert_eq!(shortcut_action(HotkeyMode::Toggle, KeyEvent::Pressed, AppStatus::LoadingModel), ShortcutAction::Ignore);
    assert_eq!(shortcut_action(HotkeyMode::Toggle, KeyEvent::Released, AppStatus::Idle), ShortcutAction::Ignore);
    assert_eq!(shortcut_action(HotkeyMode::Toggle, KeyEvent::Released, AppStatus::Recording), ShortcutAction::Ignore);
}

#[test]
fn toggle_cycle_on_state() {
    let mut s = AppState::new(AppConfig::default());
    for _ in 0..2 {
        match shortcut_action(HotkeyMode::Toggle, KeyEvent::Pressed, s.status) {
            ShortcutAction::StartRecording => { s.begin_recording(); }
            ShortcutAction::StopRecording => { s.finish_recording(); }
            ShortcutAction::Ignore => {}
        }
    }
    assert_eq!(s.status, AppStatus::Transcribing);
}

#[test]
fn percent_values() {
    assert_eq!(progress_percent(50, 100), 50);
    assert_eq!(progress_percent(1, 3), 33);
    assert_eq!(progress_percent(100, 100), 100);
    assert_eq!(progress_percent(12345, 0), 0);
    assert_eq!(progress_percent(300, 100), 44);
}

#[test]
fn tracker_counts_chunks() {
    let mut t = DownloadTracker::new("ggml-tiny".to_string(), 1000);
    let r = t.record_chunk(250);
    assert_eq!((r.model.as_str(), r.progress, r.downloaded, r.total), ("ggml-tiny", 25, 250, 1000));
    let r = t.record_chunk(500);
    assert_eq!((r.progress, r.downloaded), (75, 750));
    let r = t.record_chunk(250);
    assert_eq!((r.progress, r.downloaded), (100, 1000));
    assert_eq!(t.downloaded(), 1000);
    let done = t.finish();
    assert_eq!((done.model.as_str(), done.progress, done.downloaded, done.total), ("ggml-tiny", 100, 1000, 1000));
}

#[test]
fn tracker_unknown_size() {
    let mut t = DownloadTracker::new("ggml-base".to_string(), 0);
    assert_eq!(t.record_chunk(4096).progress, 0);
    let done = t.finish();
    assert_eq!((done.progress, done.downloaded, done.total), (100, 4096, 0));
}

#[test]
fn plan_known_model() {
    let plan = plan_download("ggml-small", "/data").unwrap();
    assert_eq!(plan.url, "https://huggingface.co/ggerganov/whisper.cpp/resolve/main/ggml-small.bin");
    assert_eq!(plan.dir, "/data/models");
    assert_eq!(plan.dest, "/data/models/ggml-small.bin");
}

#[test]
fn plan_unknown_model() {
    assert_eq!(plan_download("ggml-huge", "/data").unwrap_err(), "Unknown model: ggml-huge");
}

fn config() -> AppConfig {
    let mut c = AppConfig::default();
    c.input_device = Some("USB Mic".to_string());
    c.language = Some("en".to_string());
    c.output_method = OutputMethod::Type;
    c
}

fn finish_error(a: SessionAction) -> Option<String> {
    match a {
        SessionAction::Finish { error } => error,
        other => panic!("expected Finish, got {other:?}"),
    }
}

#[test]
fn session_happy_path() {
    let (mut s, a) = RecordingSession::start(config());
    assert!(matches!(a, SessionAction::StartMicrophone { device: Some(ref d) } if d == "USB Mic"));
    assert!(matches!(s.step(SessionEvent::MicrophoneStarted(Ok(()))), SessionAction::Wait));
    assert!(matches!(s.step(SessionEvent::StatusPolled(AppStatus::Recording)), SessionAction::Wait));
    assert!(matches!(s.step(SessionEvent::StatusPolled(AppStatus::Transcribing)), SessionAction::StopMicrophone));
    assert!(matches!(s.step(SessionEvent::Captured { samples: 48000 }), SessionAction::Resample));
    assert!(matches!(s.step(SessionEvent::Resampled { silent: false }), SessionAction::Condition));
    assert!(matches!(s.step(SessionEvent::Conditioned { empty: false }), SessionAction::ResolveDataDir));
    match s.step(SessionEvent::DataDirResolved("/data".to_string())) {
        SessionAction::CheckModelFile { path } => assert_eq!(path, "/data/models/ggml-base.bin"),
        other => panic!("{other:?}"),
    }
    match s.step(SessionEvent::ModelFilePresent(true)) {
        SessionAction::CheckCache { path } => assert_eq!(path, "/data/models/ggml-base.bin"),
        other => panic!("{other:?}"),
    }
    match s.step(SessionEvent::CacheChecked { loaded: false }) {
        SessionAction::LoadModel { path, announce_loading } => {
            assert_eq!(path, "/data/models/ggml-base.bin");
            assert!(announce_loading);
        }
        other => panic!("{other:?}"),
    }
    match s.step(SessionEvent::ModelLoaded(Ok(()))) {
        SessionAction::Transcribe { language } => assert_eq!(language.as_deref(), Some("en")),
        other => panic!("{other:?}"),
    }
    match s.step(SessionEvent::Transcribed(Ok("hello".to_string()))) {
        SessionAction::Deliver { text, method } => {
            assert_eq!(text, "hello");
            assert_eq!(method, OutputMethod::Type);
        }
        other => panic!("{other:?}"),
    }
    assert!(!s.is_finished());
    assert_eq!(finish_error(s.step(SessionEvent::Delivered(Ok(())))), None);
    assert!(s.is_finished());
    assert!(!s.expects(&SessionEvent::Delivered(Ok(()))));
}

fn to_capture() -> RecordingSession {
    let (mut s, _) = RecordingSession::start(config());
    s.step(SessionEvent::MicrophoneStarted(Ok(())));
    s.step(SessionEvent::StatusPolled(AppStatus::Transcribing));
    s
}

#[test]
fn session_microphone_error() {
    let (mut s, _) = RecordingSession::start(config());
    assert!(s.expects(&SessionEvent::MicrophoneStarted(Ok(()))));
    assert!(!s.expects(&SessionEvent::Captured { samples: 1 }));
    let e = finish_error(s.step(SessionEvent::MicrophoneStarted(Err("Audio device not found".to_string()))));
    assert_eq!(e.as_deref(), Some("Microphone error: Audio device not found"));
}

#[test]
fn session_cancelled_when_reset_to_idle() {
    let (mut s, _) = RecordingSession::start(config());
    s.step(SessionEvent::MicrophoneStarted(Ok(())));
    assert_eq!(finish_error(s.step(SessionEvent::StatusPolled(AppStatus::Idle))), None);
    assert!(s.is_finished());
}

#[test]
fn session_short_capture_ignored() {
    let mut s = to_capture();
    assert_eq!(finish_error(s.step(SessionEvent::Captured { samples: 3199 })), None);
    let mut s = to_capture();
    assert!(matches!(s.step(SessionEvent::Captured { samples: 3200 }), SessionAction::Resample));
}

#[test]
fn session_silence_and_empty_trim_ignored() {
    let mut s = to_capture();
    s.step(SessionEvent::Captured { samples: 16000 });
    assert_eq!(finish_error(s.step(SessionEvent::Resampled { silent: true })), None);
    let mut s = to_capture();
    s.step(SessionEvent::Captured { samples: 16000 });
    s.step(SessionEvent::Resampled { silent: false });
    assert_eq!(finish_error(s.step(SessionEvent::Conditioned { empty: true })), None);
}

fn to_model_check() -> RecordingSession {
    let mut s = to_capture();
    s.step(SessionEvent::Captured { samples: 16000 });
    s.step(SessionEvent::Resampled { silent: false });
    s.step(SessionEvent::Conditioned { empty: false });
    s.step(SessionEvent::DataDirResolved(".".to_string()));
    s
}

#[test]
fn session_missing_model() {
    let mut s = to_model_check();
    let e = finish_error(s.step(SessionEvent::ModelFilePresent(false)));
    assert_eq!(
        e.as_deref(),
        Some("Model 'ggml-base' is not downloaded. Open Settings and download it first.")
    );
}

#[test]
fn session_load_and_transcription_errors() {
    let mut s = to_model_check();
    s.step(SessionEvent::ModelFilePresent(true));
    match s.step(SessionEvent::CacheChecked { loaded: true }) {
        SessionAction::LoadModel { path, announce_loading } => {
            assert_eq!(path, "./models/ggml-base.bin");
            assert!(!announce_loading);
        }
        other => panic!("{other:?}"),
    }
    let e = finish_error(s.step(SessionEvent::ModelLoaded(Err("bad file".to_string()))));
    assert_eq!(e.as_deref(), Some("Failed to load model: bad file"));

    let mut s = to_model_check();
    s.step(SessionEvent::ModelFilePresent(true));
    s.step(SessionEvent::CacheChecked { loaded: true });
    s.step(SessionEvent::ModelLoaded(Ok(())));
    let e = finish_error(s.step(SessionEvent::Transcribed(Err("Whisper transcription failed".to_string()))));
    assert_eq!(e.as_deref(), Some("Transcription error: Whisper transcription failed"));
}

#[test]
fn session_empty_text_and_output_error() {
    let mut s = to_model_check();
    s.step(SessionEvent::ModelFilePresent(true));
    s.step(SessionEvent::CacheChecked { loaded: true });
    s.step(SessionEvent::ModelLoaded(Ok(())));
    assert_eq!(finish_error(s.step(SessionEvent::Transcribed(Ok(String::new())))), None);

    let mut s = to_model_check();
    s.step(SessionEvent::ModelFilePresent(true));
    s.step(SessionEvent::CacheChecked { loaded: true });
    s.step(SessionEvent::ModelLoaded(Ok(())));
    s.step(SessionEvent::Transcribed(Ok("x".to_string())));
    let e = finish_error(s.step(SessionEvent::Delivered(Err("clipboard busy".to_string()))));
    assert_eq!(e.as_deref(), Some("Could not output text: clipboard busy"));
}

#[test]
fn first_run_fetches_base_model() {
    let none = talka::transcriber::model_infos("/d", &[false, false, false, false]);
    assert_eq!(model_to_fetch_on_first_run(&none).as_deref(), Some("ggml-base"));
    let some = talka::transcriber::model_infos("/d", &[false, false, true, false]);
    assert_eq!(model_to_fetch_on_first_run(&some), None);
}

#[test]
fn tracker_progress_never_goes_down() {
    let mut t = DownloadTracker::new("ggml-tiny".to_string(), 997);
    let mut last = 0u8;
    for len in [1u64, 10, 100, 0, 333, 552, 1] {
        let r = t.record_chunk(len);
        assert!(r.progress <= 100 && r.progress >= last);
        last = r.progress;
    }
    assert_eq!(last, 100);
}
