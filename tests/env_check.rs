use voicepeak_cli::{check_environment, EnvironmentError, VOICEPEAK_PATH};

#[test]
fn all_present_passes() {
    assert_eq!(check_environment(true, true, true), Ok(()));
}

#[test]
fn platform_is_checked_first() {
    assert_eq!(check_environment(false, false, false), Err(EnvironmentError::NotMacOS));
    assert_eq!(check_environment(false, true, true), Err(EnvironmentError::NotMacOS));
}

#[test]
fn engine_is_checked_before_player() {
    assert_eq!(check_environment(true, false, false), Err(EnvironmentError::VoicepeakNotInstalled));
    assert_eq!(check_environment(true, true, false), Err(EnvironmentError::MpvNotInstalled));
}

#[test]
fn messages_explain_each_error() {
    assert_eq!(EnvironmentError::NotMacOS.message(), "This application is only supported on macOS");
    assert_eq!(
        EnvironmentError::VoicepeakNotInstalled.message(),
        format!(
            "VOICEPEAK is not installed. Please install VOICEPEAK from the official website.\nExpected path: {}",
            VOICEPEAK_PATH
        )
    );
    assert_eq!(
        EnvironmentError::MpvNotInstalled.message(),
        "mpv is not installed. Please install mpv using Homebrew:\n  brew install mpv"
    );
}
