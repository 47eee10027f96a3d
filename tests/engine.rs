use noisette::{asset_path, cleanup_due, AudioError, DesktopAudio, Sound, CLEANUP_INTERVAL_MS};

fn with_path(p: &str) -> Sound {
    let mut s = Sound::default();
    s.path = Some(p.to_string());
    s
}

fn paths(engine: &DesktopAudio<u32, &'static str>) -> Vec<String> {
    engine.instances().iter().map(|(p, _)| p.clone()).collect()
}

fn live(engine: &DesktopAudio<u32, &'static str>) -> Vec<bool> {
    vec![false; engine.instances().len()]
}

#[test]
fn new_engine_is_silent() {
    let mut e: DesktopAudio<u32, &'static str> = DesktopAudio::new("default");
    assert!(e.instances().is_empty());
    assert_eq!(*e.stream_handle(), "default");
    let d = live(&e);
    assert!(!e.is_playing(&None, &d));
}

#[test]
fn play_registers_and_replaces_per_path() {
    let mut e: DesktopAudio<u32, &'static str> = DesktopAudio::new("default");
    assert_eq!(e.play("a.wav".to_string(), 1), None);
    assert_eq!(e.play("b.wav".to_string(), 2), None);
    assert_eq!(e.play("a.wav".to_string(), 3), Some(1));
    let mut ps = paths(&e);
    ps.sort();
    assert_eq!(ps, vec!["a.wav".to_string(), "b.wav".to_string()]);
    let a = e.instances().iter().find(|(p, _)| p == "a.wav").unwrap().1;
    assert_eq!(a, 3);
}

#[test]
fn stop_removes_only_that_path() {
    let mut e: DesktopAudio<u32, &'static str> = DesktopAudio::new("default");
    e.play("a.wav".to_string(), 1);
    e.play("b.wav".to_string(), 2);
    assert_eq!(e.stop(&with_path("a.wav")), Some(1));
    assert_eq!(paths(&e), vec!["b.wav".to_string()]);
    assert_eq!(e.stop(&with_path("a.wav")), None);
    assert_eq!(e.stop(&Sound::default()), None);
    assert_eq!(paths(&e), vec!["b.wav".to_string()]);
}

#[test]
fn stop_all_returns_every_instance_and_silences() {
    let mut e: DesktopAudio<u32, &'static str> = DesktopAudio::new("default");
    e.play("a.wav".to_string(), 1);
    e.play("b.wav".to_string(), 2);
    assert_eq!(e.stop_all(), vec![1, 2]);
    assert!(e.instances().is_empty());
    let d = live(&e);
    assert!(!e.is_playing(&None, &d));
    let d = live(&e);
    assert!(!e.is_playing(&Some(with_path("a.wav")), &d));
}

#[test]
fn is_playing_answers_per_sound_and_for_none() {
    let mut e: DesktopAudio<u32, &'static str> = DesktopAudio::new("default");
    e.play("a.wav".to_string(), 1);
    let d = live(&e);
    assert!(e.is_playing(&None, &d));
    let d = live(&e);
    assert!(e.is_playing(&Some(with_path("a.wav")), &d));
    let d = live(&e);
    assert!(!e.is_playing(&Some(with_path("b.wav")), &d));
    let d = live(&e);
    assert!(!e.is_playing(&Some(Sound::default()), &d));
}

#[test]
fn drained_instances_are_swept() {
    let mut e: DesktopAudio<u32, &'static str> = DesktopAudio::new("default");
    e.play("a.wav".to_string(), 1);
    e.play("b.wav".to_string(), 2);
    e.play("c.wav".to_string(), 3);
    e.clean_finished_sinks(&vec![false, true, false]);
    assert_eq!(paths(&e), vec!["a.wav".to_string(), "c.wav".to_string()]);
    assert!(!e.is_playing(&Some(with_path("a.wav")), &vec![true, false]));
    assert_eq!(paths(&e), vec!["c.wav".to_string()]);
    assert!(!e.is_playing(&None, &vec![true]));
    assert!(e.instances().is_empty());
}

#[test]
fn device_switch_clears_and_rebinds() {
    let mut e: DesktopAudio<u32, &'static str> = DesktopAudio::new("default");
    e.play("a.wav".to_string(), 1);
    e.play("b.wav".to_string(), 2);
    let r = e.set_device(Ok("headset"));
    assert_eq!(r, Ok(("default", vec![1, 2])));
    assert_eq!(*e.stream_handle(), "headset");
    let d = live(&e);
    assert!(!e.is_playing(&None, &d));
    assert_eq!(e.play("a.wav".to_string(), 5), None);
    let d = live(&e);
    assert!(e.is_playing(&Some(with_path("a.wav")), &d));
    assert_eq!(*e.stream_handle(), "headset");
}

#[test]
fn failed_device_switch_keeps_everything() {
    let mut e: DesktopAudio<u32, &'static str> = DesktopAudio::new("default");
    e.play("a.wav".to_string(), 1);
    let r = e.set_device(Err(AudioError::DeviceUnavailable));
    assert_eq!(r, Err(AudioError::DeviceUnavailable));
    assert_eq!(*e.stream_handle(), "default");
    assert_eq!(paths(&e), vec!["a.wav".to_string()]);
}

#[test]
fn asset_path_requires_a_path() {
    assert_eq!(asset_path(&with_path("x/y.mp3")), Ok("x/y.mp3".to_string()));
    assert_eq!(asset_path(&Sound::default()), Err(AudioError::AssetMissing));
}

#[test]
fn cleanup_runs_after_three_seconds() {
    assert_eq!(CLEANUP_INTERVAL_MS, 3000);
    assert!(!cleanup_due(0));
    assert!(!cleanup_due(3000));
    assert!(cleanup_due(3001));
}

#[test]
fn default_sound_is_empty_and_editing() {
    let s = Sound::default();
    assert!(s.name.is_none());
    assert!(s.path.is_none());
    assert!(s.shortcut.is_none());
    assert!(s.editing);
    assert!(s.data.is_none());
}
