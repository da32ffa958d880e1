use voicepeak_cli::config::{VoicePreset, DEFAULT_NARRATOR};
use voicepeak_cli::{
    get_presets_map, parse_emotion_string, preset_lines, resolve_voice, Config, EmotionParam,
    ResolveError,
};

fn pairs(ps: &[EmotionParam]) -> Vec<(String, i32)> {
    ps.iter().map(|p| (p.name.clone(), p.value)).collect()
}

fn owned(v: &[(&str, i32)]) -> Vec<(String, i32)> {
    v.iter().map(|(n, x)| (n.to_string(), *x)).collect()
}

#[test]
fn parses_emotion_expression() {
    assert_eq!(pairs(&parse_emotion_string("happy=50,sad=20")), owned(&[("happy", 50), ("sad", 20)]));
}

#[test]
fn parse_trims_parts_and_names_but_not_values() {
    assert_eq!(pairs(&parse_emotion_string(" happy = 50 , sad=20 ")), owned(&[("sad", 20)]));
    assert_eq!(pairs(&parse_emotion_string("  angry =7")), owned(&[("angry", 7)]));
}

#[test]
fn parse_skips_parts_that_do_not_parse() {
    assert_eq!(pairs(&parse_emotion_string("a=x,b,c=3,=4")), owned(&[("c", 3), ("", 4)]));
    assert_eq!(pairs(&parse_emotion_string("a=1=2")), owned(&[]));
}

#[test]
fn parse_of_blank_is_empty() {
    assert!(parse_emotion_string("").is_empty());
    assert!(parse_emotion_string("   ").is_empty());
    assert!(parse_emotion_string(",,").is_empty());
}

#[test]
fn parse_reads_signs_and_range() {
    assert_eq!(pairs(&parse_emotion_string("a=-5,b=+7")), owned(&[("a", -5), ("b", 7)]));
    assert_eq!(pairs(&parse_emotion_string("a=2147483648")), owned(&[]));
    assert_eq!(pairs(&parse_emotion_string("a=-2147483648")), owned(&[("a", i32::MIN)]));
    assert_eq!(pairs(&parse_emotion_string("a=2147483647")), owned(&[("a", i32::MAX)]));
    assert_eq!(pairs(&parse_emotion_string("a=-,b=+,c=")), owned(&[]));
    assert_eq!(pairs(&parse_emotion_string("a=99999999999999999999")), owned(&[]));
}

#[test]
fn emotion_string_joins_pairs() {
    let p = VoicePreset::new(
        "p",
        "n",
        vec![EmotionParam::new("hightension", 50), EmotionParam::new("x", -3)],
    );
    assert_eq!(p.get_emotion_string(), "hightension=50,x=-3");
    assert_eq!(VoicePreset::new("p", "n", vec![]).get_emotion_string(), "");
    let min = VoicePreset::new("p", "n", vec![EmotionParam::new("m", i32::MIN)]);
    assert_eq!(min.get_emotion_string(), "m=-2147483648");
}

#[test]
fn preset_from_emotion_string_round_trips() {
    let p = VoicePreset::new_from_emotion_string("p", "narr", "happy=50,sad=-20");
    assert_eq!(p.name, "p");
    assert_eq!(p.narrator, "narr");
    assert_eq!(p.pitch, None);
    assert_eq!(p.speed, None);
    assert_eq!(p.get_emotion_string(), "happy=50,sad=-20");
}

#[test]
fn default_config_holds_the_builtin_presets() {
    let c = Config::default();
    assert_eq!(c.default_preset.as_deref(), Some("karin-normal"));
    let names: Vec<&str> = c.presets.iter().map(|p| p.name.as_str()).collect();
    assert_eq!(names, vec!["karin-normal", "karin-happy", "karin-angry", "karin-sad", "karin-whisper"]);
    let pitches: Vec<Option<i32>> = c.presets.iter().map(|p| p.pitch).collect();
    assert_eq!(pitches, vec![None, Some(50), Some(-50), Some(-30), Some(-20)]);
    let emotions: Vec<String> = c.presets.iter().map(|p| p.get_emotion_string()).collect();
    assert_eq!(emotions, vec!["", "hightension=50", "buchigire=50", "nageki=50", "sasayaki=50"]);
    assert!(c.presets.iter().all(|p| p.narrator == "夏色花梨" && p.speed.is_none()));
    assert_eq!(DEFAULT_NARRATOR, "夏色花梨");
}

#[test]
fn presets_map_looks_up_by_name_last_wins() {
    let mut c = Config::default();
    let map = get_presets_map(&c);
    assert_eq!(map.get("karin-sad").map(|p| p.pitch), Some(Some(-30)));
    assert!(map.get("nobody").is_none());
    let mut dup = VoicePreset::new("karin-sad", "other", vec![]);
    dup.pitch = Some(7);
    c.presets.push(dup);
    let map = get_presets_map(&c);
    let found = map.get("karin-sad").unwrap();
    assert_eq!(found.narrator, "other");
    assert_eq!(found.pitch, Some(7));
}

#[test]
fn explicit_preset_sets_everything() {
    let c = Config::default();
    let s = resolve_voice(&c, Some("karin-angry"), None, None, None, None).ok().unwrap();
    assert_eq!(s.narrator, "夏色花梨");
    assert_eq!(s.emotion, "buchigire=50");
    assert_eq!(s.pitch.as_deref(), Some("-50"));
    assert_eq!(s.speed, None);
    let s = resolve_voice(&c, Some("karin-angry"), None, None, Some("150"), Some("3")).ok().unwrap();
    assert_eq!(s.speed.as_deref(), Some("150"));
    assert_eq!(s.pitch.as_deref(), Some("3"));
}

#[test]
fn unknown_preset_is_an_error() {
    let c = Config::default();
    assert_eq!(
        resolve_voice(&c, Some("missing"), None, None, None, None).err(),
        Some(ResolveError::UnknownPreset)
    );
}

#[test]
fn default_preset_can_be_overridden() {
    let mut c = Config::default();
    c.default_preset = Some("karin-happy".to_string());
    c.presets[1].speed = Some(110);
    let s = resolve_voice(&c, None, None, None, None, None).ok().unwrap();
    assert_eq!(s.narrator, "夏色花梨");
    assert_eq!(s.emotion, "hightension=50");
    assert_eq!(s.pitch.as_deref(), Some("50"));
    assert_eq!(s.speed.as_deref(), Some("110"));
    let s = resolve_voice(&c, None, Some("Other"), Some("sad=10"), None, None).ok().unwrap();
    assert_eq!(s.narrator, "Other");
    assert_eq!(s.emotion, "sad=10");
    assert_eq!(s.pitch, None);
    assert_eq!(s.speed.as_deref(), Some("110"));
}

#[test]
fn without_preset_a_narrator_is_needed() {
    let mut c = Config::default();
    c.default_preset = None;
    assert_eq!(
        resolve_voice(&c, None, None, Some("a=1"), None, None).err(),
        Some(ResolveError::NoNarrator)
    );
    let s = resolve_voice(&c, None, Some("N"), None, None, Some("-5")).ok().unwrap();
    assert_eq!(s.narrator, "N");
    assert_eq!(s.emotion, "");
    assert_eq!(s.pitch.as_deref(), Some("-5"));
    assert_eq!(s.speed, None);
    c.default_preset = Some("gone".to_string());
    assert_eq!(
        resolve_voice(&c, None, None, None, None, None).err(),
        Some(ResolveError::NoNarrator)
    );
}

#[test]
fn preset_listing_lines() {
    let c = Config::default();
    assert_eq!(
        preset_lines(&c),
        vec![
            "Available presets:",
            "  karin-normal - 夏色花梨 (normal) (default)",
            "  karin-happy - 夏色花梨 (hightension=50, pitch=50)",
            "  karin-angry - 夏色花梨 (buchigire=50, pitch=-50)",
            "  karin-sad - 夏色花梨 (nageki=50, pitch=-30)",
            "  karin-whisper - 夏色花梨 (sasayaki=50, pitch=-20)",
            "",
            "Default preset: karin-normal",
        ]
    );
    let none = Config { default_preset: None, presets: vec![] };
    assert_eq!(preset_lines(&none), vec!["Available presets:", "", "No default preset set"]);
}

#[test]
fn default_presets_of_the_simple_form() {
    let ps = voicepeak_cli::get_default_presets();
    let got: Vec<(&str, &str)> = ps.iter().map(|p| (p.name.as_str(), p.emotion.as_str())).collect();
    assert_eq!(
        got,
        vec![
            ("karin-normal", ""),
            ("karin-happy", "hightension=50"),
            ("karin-angry", "buchigire=50"),
            ("karin-sad", "nageki=50"),
            ("karin-whisper", "sasayaki=50"),
        ]
    );
    let p = voicepeak_cli::presets::VoicePreset::new("a", "b", "c=1");
    assert_eq!((p.name.as_str(), p.narrator.as_str(), p.emotion.as_str()), ("a", "b", "c=1"));
}
