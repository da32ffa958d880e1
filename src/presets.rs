//! The built-in presets in their simplest form: a narrator and one emotion
//! expression each.

use vstd::prelude::*;
use crate::config::DEFAULT_NARRATOR;

verus! {

broadcast use vstd::string::group_string_axioms;

/// A named narrator with an emotion expression.
pub struct VoicePreset {
    pub name: String,
    pub narrator: String,
    pub emotion: String,
}

impl VoicePreset {
    /// A preset from its three fields.
    pub fn new(name: &str, narrator: &str, emotion: &str) -> (r: Self)
        ensures
            r.name@ == name@,
            r.narrator@ == narrator@,
            r.emotion@ == emotion@,
    {
        VoicePreset { name: name.to_owned(), narrator: narrator.to_owned(), emotion: emotion.to_owned() }
    }
}

/// Whether `p` is the built-in preset `name` with the emotion `emotion`.
pub open spec fn is_default_preset(p: VoicePreset, name: Seq<char>, emotion: Seq<char>) -> bool {
    p.name@ == name && p.narrator@ == DEFAULT_NARRATOR@ && p.emotion@ == emotion
}

/// The built-in presets, one per name.
pub fn get_default_presets() -> (r: Vec<VoicePreset>)
    ensures
        r@.len() == 5,
        is_default_preset(r@[0], "karin-normal"@, ""@),
        is_default_preset(r@[1], "karin-happy"@, "hightension=50"@),
        is_default_preset(r@[2], "karin-angry"@, "buchigire=50"@),
        is_default_preset(r@[3], "karin-sad"@, "nageki=50"@),
        is_default_preset(r@[4], "karin-whisper"@, "sasayaki=50"@),
{
    let mut presets: Vec<VoicePreset> = Vec::new();
    presets.push(VoicePreset::new("karin-normal", DEFAULT_NARRATOR, ""));
    presets.push(VoicePreset::new("karin-happy", DEFAULT_NARRATOR, "hightension=50"));
    presets.push(VoicePreset::new("karin-angry", DEFAULT_NARRATOR, "buchigire=50"));
    presets.push(VoicePreset::new("karin-sad", DEFAULT_NARRATOR, "nageki=50"));
    presets.push(VoicePreset::new("karin-whisper", DEFAULT_NARRATOR, "sasayaki=50"));
    presets
}

} // verus!
