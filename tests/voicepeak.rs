use voicepeak_cli::invoker::{DEFAULT_MAX_ATTEMPTS, RETRY_DELAY_SECS, ATTEMPT_TIMEOUT_SECS};
use voicepeak_cli::{Phase, VoicepeakCommand, VOICEPEAK_PATH};

#[test]
fn builder_maps_each_field_to_its_flag() {
    let args = VoicepeakCommand::new()
        .text("hello")
        .narrator("Japanese Female 1")
        .emotion("happy=50,sad=10")
        .output("/tmp/out.wav")
        .speed("120")
        .pitch("-10")
        .build_args();
    assert_eq!(
        args,
        vec![
            "-s", "hello", "-n", "Japanese Female 1", "-e", "happy=50,sad=10", "-o",
            "/tmp/out.wav", "--speed", "120", "--pitch", "-10"
        ]
    );
}

#[test]
fn absent_fields_are_omitted() {
    let args = VoicepeakCommand::new().output("/tmp/a.wav").text("a").build_args();
    assert_eq!(args, vec!["-s", "a", "-o", "/tmp/a.wav"]);
    assert!(VoicepeakCommand::new().build_args().is_empty());
    assert!(VoicepeakCommand::default().build_args().is_empty());
}

#[test]
fn empty_emotion_is_ignored() {
    let args = VoicepeakCommand::new().emotion("").narrator("n").build_args();
    assert_eq!(args, vec!["-n", "n"]);
    let kept = VoicepeakCommand::new().emotion("x=1").emotion("").build_args();
    assert_eq!(kept, vec!["-e", "x=1"]);
}

#[test]
fn later_setting_replaces_earlier() {
    let args = VoicepeakCommand::new().text("one").text("two").build_args();
    assert_eq!(args, vec!["-s", "two"]);
}

#[test]
fn execute_starts_an_invocation_awaiting_the_lock() {
    let inv = VoicepeakCommand::new().text("hi").execute();
    assert_eq!(inv.phase(), Phase::AwaitingLock);
    assert!(!inv.is_verbose());
    assert_eq!(inv.max_attempts(), DEFAULT_MAX_ATTEMPTS);
    assert_eq!(inv.arguments(), vec!["-s", "hi"]);
    let verbose = VoicepeakCommand::new().execute_with_verbose(true);
    assert!(verbose.is_verbose());
    assert_eq!(DEFAULT_MAX_ATTEMPTS, 10);
    assert_eq!(ATTEMPT_TIMEOUT_SECS, 15);
    assert_eq!(RETRY_DELAY_SECS, 5);
    assert!(VOICEPEAK_PATH.ends_with("voicepeak"));
}
