//! Front end for an external text-to-speech engine: text chunking, request
//! building, the locked retry protocol that drives the engine, and the
//! playback/merge pipeline, each stated and proved with Verus.

pub mod text;
pub mod number;
pub mod text_splitter;
pub mod split_properties;
pub mod voicepeak;
pub mod invoker;
pub mod invoker_properties;
pub mod config;
pub mod emotion_properties;
pub mod presets;
pub mod env_check;
pub mod audio_merge;
pub mod pipeline;

pub use audio_merge::{concat_entries_of, concat_list, merge_method, MergeError, MergeMethod};
pub use config::{
    get_presets_map, parse_emotion_string, preset_lines, resolve_voice, Config, EmotionParam,
    PresetMap, ResolveError, VoiceSettings,
};
pub use env_check::{check_environment, EnvironmentError};
pub use invoker::{Action, AttemptError, Event, InvokeError, Invocation, Phase};
pub use pipeline::{
    cleanup_after_failure, needs_merge_tool, plan_run, Artifact, Destination, PlaybackMode, Step,
};
pub use presets::{get_default_presets, VoicePreset};
pub use text_splitter::{check_text_length, split_text, split_text_with_limit, MAX_CHARS};
pub use voicepeak::{VoicepeakCommand, VOICEPEAK_PATH};
