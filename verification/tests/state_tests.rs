use talka::state::{AppConfig, AppState, AppStatus, HotkeyMode, OutputMethod};

#[test]
fn default_config_values() {
    let c = AppConfig::default();
    assert_eq!(c.hotkey, "F9");
    assert_eq!(c.mode, HotkeyMode::PushToTalk);
    assert_eq!(c.model, "ggml-base");
    assert_eq!(c.language, None);
    assert_eq!(c.output_method, OutputMethod::Paste);
    assert_eq!(c.input_device, None);
}

#[test]
fn new_state_is_idle() {
    let s = AppState::new(AppConfig::default());
    assert_eq!(s.status, AppStatus::Idle);
    assert_eq!(s.config.model, "ggml-base");
}

#[test]
fn begin_recording_only_from_idle() {
    let mut s = AppState::new(AppConfig::default());
    assert!(s.begin_recording());
    assert_eq!(s.status, AppStatus::Recording);
    assert!(!s.begin_recording());
    assert_eq!(s.status, AppStatus::Recording);
    s.status = AppStatus::Transcribing;
    assert!(!s.begin_recording());
    assert_eq!(s.status, AppStatus::Transcribing);
    s.status = AppStatus::LoadingModel;
    assert!(!s.begin_recording());
    assert_eq!(s.status, AppStatus::LoadingModel);
}

#[test]
fn finish_recording_only_while_recording() {
    let mut s = AppState::new(AppConfig::default());
    assert!(!s.finish_recording());
    assert_eq!(s.status, AppStatus::Idle);
    assert!(s.begin_recording());
    assert!(s.finish_recording());
    assert_eq!(s.status, AppStatus::Transcribing);
    assert!(!s.finish_recording());
    assert_eq!(s.status, AppStatus::Transcribing);
}

#[test]
fn set_idle_from_any_status() {
    let mut s = AppState::new(AppConfig::default());
    for st in [AppStatus::Recording, AppStatus::Transcribing, AppStatus::LoadingModel, AppStatus::Idle] {
        s.status = st;
        s.set_idle();
        assert_eq!(s.status, AppStatus::Idle);
    }
}

#[test]
fn config_read_gives_back_write() {
    let mut s = AppState::new(AppConfig::default());
    assert!(s.begin_recording());
    let mut c = AppConfig::default();
    c.hotkey = "Ctrl+Shift+Space".to_string();
    c.mode = HotkeyMode::Toggle;
    c.model = "ggml-small".to_string();
    c.language = Some("de".to_string());
    c.output_method = OutputMethod::Type;
    c.input_device = Some("USB Mic".to_string());
    s.set_config(c);
    let r = s.config();
    assert_eq!(r.hotkey, "Ctrl+Shift+Space");
    assert_eq!(r.mode, HotkeyMode::Toggle);
    assert_eq!(r.model, "ggml-small");
    assert_eq!(r.language.as_deref(), Some("de"));
    assert_eq!(r.output_method, OutputMethod::Type);
    assert_eq!(r.input_device.as_deref(), Some("USB Mic"));
    assert_eq!(s.status, AppStatus::Recording);
}
