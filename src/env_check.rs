//! The checks made before the engine is used: the platform, the engine's
//! installation and the audio player, reported in that order.

use vstd::prelude::*;
use crate::text::{push_text, string_of};
use crate::voicepeak::VOICEPEAK_PATH;

verus! {

broadcast use vstd::string::group_string_axioms;

/// What is missing for the engine to be used.
#[derive(Clone, Copy, Debug, PartialEq, Eq, Structural)]
pub enum EnvironmentError {
    NotMacOS,
    VoicepeakNotInstalled,
    MpvNotInstalled,
}

/// The message that explains `e`.
pub open spec fn environment_message(e: EnvironmentError) -> Seq<char> {
    match e {
        EnvironmentError::NotMacOS => "This application is only supported on macOS"@,
        EnvironmentError::VoicepeakNotInstalled =>
            "VOICEPEAK is not installed. Please install VOICEPEAK from the official website.\nExpected path: "@
            + VOICEPEAK_PATH@,
        EnvironmentError::MpvNotInstalled =>
            "mpv is not installed. Please install mpv using Homebrew:\n  brew install mpv"@,
    }
}

impl EnvironmentError {
    /// The message that explains this error.
    pub fn message(&self) -> (r: String)
        ensures
            r@ == environment_message(*self),
    {
        match self {
            EnvironmentError::NotMacOS => "This application is only supported on macOS".to_owned(),
            EnvironmentError::VoicepeakNotInstalled => {
                let mut out: Vec<char> = Vec::new();
                push_text(
                    &mut out,
                    "VOICEPEAK is not installed. Please install VOICEPEAK from the official website.\nExpected path: ",
                );
                push_text(&mut out, VOICEPEAK_PATH);
                string_of(out.as_slice())
            },
            EnvironmentError::MpvNotInstalled =>
                "mpv is not installed. Please install mpv using Homebrew:\n  brew install mpv".to_owned(),
        }
    }
}

fn check_macos(is_macos: bool) -> (r: Result<(), EnvironmentError>)
    ensures
        r == if is_macos {
            Ok::<(), EnvironmentError>(())
        } else {
            Err(EnvironmentError::NotMacOS)
        },
{
    if !is_macos {
        return Err(EnvironmentError::NotMacOS);
    }
    Ok(())
}

fn check_voicepeak_installed(installed: bool) -> (r: Result<(), EnvironmentError>)
    ensures
        r == if installed {
            Ok::<(), EnvironmentError>(())
        } else {
            Err(EnvironmentError::VoicepeakNotInstalled)
        },
{
    if !installed {
        return Err(EnvironmentError::VoicepeakNotInstalled);
    }
    Ok(())
}

fn check_mpv_installed(runs: bool) -> (r: Result<(), EnvironmentError>)
    ensures
        r == if runs {
            Ok::<(), EnvironmentError>(())
        } else {
            Err(EnvironmentError::MpvNotInstalled)
        },
{
    if !runs {
        return Err(EnvironmentError::MpvNotInstalled);
    }
    Ok(())
}

/// The first thing missing, given whether the platform is macOS, whether
/// the engine is installed at `VOICEPEAK_PATH`, and whether the audio
/// player runs.
pub fn check_environment(is_macos: bool, voicepeak_installed: bool, mpv_runs: bool) -> (r: Result<
    (),
    EnvironmentError,
>)
    ensures
        r == if !is_macos {
            Err(EnvironmentError::NotMacOS)
        } else if !voicepeak_installed {
            Err(EnvironmentError::VoicepeakNotInstalled)
        } else if !mpv_runs {
            Err(EnvironmentError::MpvNotInstalled)
        } else {
            Ok::<(), EnvironmentError>(())
        },
{
    match check_macos(is_macos) {
        Err(e) => {
            return Err(e);
        },
        Ok(()) => {},
    }
    match check_voicepeak_installed(voicepeak_installed) {
        Err(e) => {
            return Err(e);
        },
        Ok(()) => {},
    }
    check_mpv_installed(mpv_runs)
}

} // verus!
