use talka::audio::{find_input_device, list_input_devices, pad_audio, trim_silence_range, trim_windows};

#[test]
fn devices_with_readable_names_are_listed() {
    let names = vec![Some("Built-in".to_string()), None, Some("USB Mic".to_string())];
    let devices = list_input_devices(Some(names));
    assert_eq!(devices.len(), 2);
    assert_eq!(devices[0].id, "Built-in");
    assert_eq!(devices[0].name, "Built-in");
    assert_eq!(devices[1].id, "USB Mic");
    assert_eq!(devices[1].name, "USB Mic");
}

#[test]
fn failed_enumeration_lists_nothing() {
    assert!(list_input_devices(None).is_empty());
    assert!(list_input_devices(Some(vec![None, None])).is_empty());
}

#[test]
fn find_device_by_name() {
    let names = vec![None, Some("A".to_string()), Some("B".to_string()), Some("B".to_string())];
    assert_eq!(find_input_device(&names, "B"), Some(2));
    assert_eq!(find_input_device(&names, "A"), Some(1));
    assert_eq!(find_input_device(&names, "C"), None);
    assert_eq!(find_input_device(&[], "A"), None);
}

#[test]
fn pad_adds_silence_on_both_sides() {
    let samples = [0.5f32, -0.25];
    let out = pad_audio(&samples, 1, 0.0f32);
    assert_eq!(out.len(), 2 + 2 * 16);
    assert!(out[..16].iter().all(|s| *s == 0.0));
    assert_eq!(out[16], 0.5);
    assert_eq!(out[17], -0.25);
    assert!(out[18..].iter().all(|s| *s == 0.0));
    assert_eq!(pad_audio(&samples, 0, 0.0f32), vec![0.5f32, -0.25]);
    assert_eq!(pad_audio::<f32>(&[], 100, 0.0).len(), 3200);
}

#[test]
fn windows_of_short_audio() {
    let (f, b) = trim_windows(319);
    assert!(f.is_empty() && b.is_empty());
}

#[test]
fn windows_of_audio() {
    let (f, b) = trim_windows(400);
    assert_eq!(f, vec![0, 80, 160, 240]);
    assert_eq!(b, vec![240, 160, 80, 0]);
    let (f, b) = trim_windows(350);
    assert_eq!(f, vec![0, 80, 160]);
    assert_eq!(b, vec![190, 110, 30]);
}

#[test]
fn short_audio_kept_whole() {
    assert_eq!(trim_silence_range(100, &[], &[]), (0, 100));
    assert_eq!(trim_silence_range(0, &[], &[]), (0, 0));
}

#[test]
fn pure_silence_dropped() {
    let n = 1000;
    let (f, _) = trim_windows(n);
    let none = vec![false; f.len()];
    assert_eq!(trim_silence_range(n, &none, &none), (0, 0));
}

#[test]
fn speech_in_middle_kept_with_margins() {
    // 1600 samples; forward windows start at 0, 80, ..., 1440 (19 windows);
    // backward windows start at 1440, 1360, ..., 0.
    let n = 1600;
    let (f, b) = trim_windows(n);
    assert_eq!(f.len(), 19);
    // speech between samples 640 and 960
    let active = |start: usize| start + 160 > 640 && start < 960;
    let fa: Vec<bool> = f.iter().map(|s| active(*s)).collect();
    let ba: Vec<bool> = b.iter().map(|s| active(*s)).collect();
    // first active forward window starts at 560, last active backward at 880
    assert_eq!(trim_silence_range(n, &fa, &ba), (400, 1200));
}

#[test]
fn speech_at_edges_clamped() {
    let n = 800;
    let (f, b) = trim_windows(n);
    let all = vec![true; f.len()];
    assert_eq!(f.len(), b.len());
    assert_eq!(trim_silence_range(n, &all, &all), (0, 800));
}

#[test]
fn no_backward_speech_keeps_tail() {
    let n = 800;
    let (f, _) = trim_windows(n);
    let mut fa = vec![false; f.len()];
    fa[3] = true; // window at 240
    let ba = vec![false; f.len()];
    assert_eq!(trim_silence_range(n, &fa, &ba), (80, 800));
}
