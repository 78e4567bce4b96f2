use talka::transcriber::{
    finish_transcript, has_repeated_phrase, is_repetitive, list_models, model_catalog, model_infos,
    model_path, models_dir, Transcriber,
};

#[test]
fn models_dir_inside_data_dir() {
    assert_eq!(models_dir("/home/u/.local/share/talka"), "/home/u/.local/share/talka/models");
    assert_eq!(models_dir("."), "./models");
}

#[test]
fn model_path_adds_bin() {
    assert_eq!(model_path("/d/models", "ggml-base"), "/d/models/ggml-base.bin");
    assert_eq!(model_path(&models_dir("/d"), "ggml-tiny"), "/d/models/ggml-tiny.bin");
}

#[test]
fn catalog_contents() {
    let c = model_catalog();
    let names: Vec<&str> = c.iter().map(|m| m.name.as_str()).collect();
    assert_eq!(names, vec!["ggml-tiny", "ggml-base", "ggml-small", "ggml-medium"]);
    let sizes: Vec<u32> = c.iter().map(|m| m.size_mb).collect();
    assert_eq!(sizes, vec![75, 142, 483, 1500]);
    assert_eq!(c[1].label, "Base (142 MB) \u{2014} recommended");
    assert_eq!(c[3].url, "https://huggingface.co/ggerganov/whisper.cpp/resolve/main/ggml-medium.bin");
}

#[test]
fn infos_follow_presence() {
    let infos = model_infos("/d", &[false, true, false, true]);
    assert_eq!(infos.len(), 4);
    assert_eq!(infos[0].name, "ggml-tiny");
    assert!(!infos[0].downloaded);
    assert_eq!(infos[0].path, None);
    assert!(infos[1].downloaded);
    assert_eq!(infos[1].path.as_deref(), Some("/d/models/ggml-base.bin"));
    assert_eq!(infos[3].path.as_deref(), Some("/d/models/ggml-medium.bin"));
    assert_eq!(infos[2].label, "Small (483 MB) \u{2014} better accuracy");
}

#[test]
fn list_models_missing_dir() {
    let infos = list_models("/nonexistent/talka-test-dir", |p: &str| std::path::Path::new(p).exists());
    assert_eq!(infos.len(), 4);
    assert!(infos.iter().all(|m| !m.downloaded && m.path.is_none()));
}

#[test]
fn list_models_asks_about_each_own_file() {
    let mut asked: Vec<String> = Vec::new();
    let infos = {
        let asked_cell = std::cell::RefCell::new(&mut asked);
        list_models("/d", |p: &str| {
            asked_cell.borrow_mut().push(p.to_string());
            p.ends_with("ggml-small.bin")
        })
    };
    assert_eq!(
        asked,
        vec![
            "/d/models/ggml-tiny.bin",
            "/d/models/ggml-base.bin",
            "/d/models/ggml-small.bin",
            "/d/models/ggml-medium.bin"
        ]
    );
    let flags: Vec<bool> = infos.iter().map(|m| m.downloaded).collect();
    assert_eq!(flags, vec![false, false, true, false]);
    assert_eq!(infos[2].path.as_deref(), Some("/d/models/ggml-small.bin"));
    assert_eq!(infos[0].path, None);
}

fn words(v: &[&str]) -> Vec<String> {
    v.iter().map(|s| s.to_string()).collect()
}

#[test]
fn five_repeats_in_short_text() {
    assert!(is_repetitive("hello hello hello hello hello"));
    assert!(!is_repetitive("hello hello hello hello"));
    assert!(is_repetitive("thank you thank you thank you thank you thank you"));
    assert!(!is_repetitive(""));
}

#[test]
fn word_repeated_five_times() {
    assert!(is_repetitive("so I said thank you thank you you you you you"));
    assert!(!is_repetitive("so I said thank you you you you and more words"));
}

#[test]
fn phrase_repeated_five_times() {
    assert!(is_repetitive("thank you thank you thank you thank you thank you"));
    assert!(!is_repetitive("thank you thank you thank you thank you and goodbye"));
    assert!(is_repetitive("a b c a b c a b c a b c a b c end"));
    assert!(!is_repetitive("a b c a b c a b c a b c a b d end"));
}

#[test]
fn ordinary_sentence_not_repetitive() {
    assert!(!is_repetitive("Please send the report to the team before the end of the day."));
}

#[test]
fn repeated_phrase_on_word_list() {
    assert!(has_repeated_phrase(&words(&["x", "y", "y", "y", "y", "y", "z", "w", "v", "u"])));
    assert!(has_repeated_phrase(&words(&["y", "y", "y", "y", "y"])));
    assert!(!has_repeated_phrase(&words(&["y", "y", "y", "y", "z"])));
    assert!(!has_repeated_phrase(&words(&[])));
}

#[test]
fn transcript_joined_and_trimmed() {
    let segs = vec![" Hello".to_string(), " world. ".to_string()];
    assert_eq!(finish_transcript(&segs), "Hello world.");
    assert_eq!(finish_transcript(&Vec::new()), "");
}

#[test]
fn hallucination_loop_dropped() {
    let segs = vec![" you you you".to_string(), " you you you you you you you".to_string()];
    assert_eq!(finish_transcript(&segs), "");
}

#[test]
fn load_once_then_skip() {
    let mut t: Transcriber<u32> = Transcriber::new();
    assert!(!t.is_loaded_for("/m/a.bin"));
    let mut calls = 0;
    assert!(t.load("/m/a.bin", |p: &str| -> Result<u32, ()> { calls += 1; Ok(p.len() as u32) }).is_ok());
    assert_eq!(calls, 1);
    assert!(t.is_loaded_for("/m/a.bin"));
    assert!(t.load("/m/a.bin", |_p: &str| -> Result<u32, ()> { panic!("must not reload") }).is_ok());
    assert!(!t.is_loaded_for("/m/b.bin"));
}

#[test]
fn failed_load_keeps_previous_model() {
    let mut t: Transcriber<u32> = Transcriber::new();
    assert!(t.load("/m/a.bin", |_p: &str| -> Result<u32, ()> { Ok(7) }).is_ok());
    let err = t.load("/m/b.bin", |_p: &str| -> Result<u32, String> { Err("io".to_string()) });
    assert_eq!(err, Err("Failed to load Whisper model \u{2014} ensure the model file exists".to_string()));
    assert!(t.is_loaded_for("/m/a.bin"));
    let text = t.transcribe(|c: &u32| Ok(vec![format!(" ctx {c}")]));
    assert_eq!(text, Ok("ctx 7".to_string()));
}

#[test]
fn transcribe_without_model() {
    let t: Transcriber<u32> = Transcriber::new();
    let r = t.transcribe(|_c: &u32| -> Result<Vec<String>, String> { panic!("no model") });
    assert_eq!(r, Err("Model not loaded".to_string()));
}

#[test]
fn transcribe_passes_errors_and_cleans_text() {
    let mut t: Transcriber<u32> = Transcriber::new();
    assert!(t.load("/m/a.bin", |_p: &str| -> Result<u32, ()> { Ok(1) }).is_ok());
    let r = t.transcribe(|_c: &u32| Err("Whisper transcription failed".to_string()));
    assert_eq!(r, Err("Whisper transcription failed".to_string()));
    let r = t.transcribe(|_c: &u32| Ok(vec!["  Hi there  ".to_string()]));
    assert_eq!(r, Ok("Hi there".to_string()));
}
