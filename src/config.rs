//! Voice presets and their emotion expressions, the configuration that
//! holds them, and how a request's voice settings are resolved from them.

use vstd::prelude::*;
use crate::number::{decimal, parse_i32, parse_i32_chars, push_decimal};
use crate::text::{chars_of, push_text, slice_chars, string_of, trim, trim_chars, views};

verus! {

broadcast use vstd::string::group_string_axioms;

/// One named emotion and its intensity.
pub struct EmotionParam {
    pub name: String,
    pub value: i32,
}

/// The name and value of each parameter.
pub open spec fn params_view(ps: Seq<EmotionParam>) -> Seq<(Seq<char>, i32)> {
    ps.map_values(|p: EmotionParam| (p.name@, p.value))
}

/// Splits `s` at every `sep`, as `str::split` does: the parts closed so far
/// and the part still open.
pub open spec fn split_scan(s: Seq<char>, sep: char) -> (Seq<Seq<char>>, Seq<char>)
    decreases s.len(),
{
    if s.len() == 0 {
        (Seq::empty(), Seq::empty())
    } else {
        let (done, open) = split_scan(s.drop_last(), sep);
        if s.last() == sep {
            (done.push(open), Seq::empty())
        } else {
            (done, open.push(s.last()))
        }
    }
}

/// The parts of `s` between occurrences of `sep`: one more than there are
/// separators.
pub open spec fn split_parts(s: Seq<char>, sep: char) -> Seq<Seq<char>> {
    split_scan(s, sep).0.push(split_scan(s, sep).1)
}

/// The position of the first `c` in `s`, if any.
pub open spec fn first_index(s: Seq<char>, c: char) -> Option<int>
    decreases s.len(),
{
    if s.len() == 0 {
        None
    } else if s[0] == c {
        Some(0)
    } else {
        match first_index(s.drop_first(), c) {
            Some(k) => Some(k + 1),
            None => None,
        }
    }
}

/// One `name=value` part, trimmed: the trimmed name before the first `=`
/// and the integer after it; nothing if there is no `=` or no integer.
pub open spec fn parse_param(part: Seq<char>) -> Option<(Seq<char>, i32)> {
    let p = trim(part);
    match first_index(p, '=') {
        Some(k) => match parse_i32(p.skip(k + 1)) {
            Some(v) => Some((trim(p.take(k)), v)),
            None => None,
        },
        None => None,
    }
}

/// The parameters of the parts that parse, in order.
pub open spec fn parse_params(parts: Seq<Seq<char>>) -> Seq<(Seq<char>, i32)>
    decreases parts.len(),
{
    if parts.len() == 0 {
        Seq::empty()
    } else {
        let r = parse_params(parts.drop_last());
        match parse_param(parts.last()) {
            Some(x) => r.push(x),
            None => r,
        }
    }
}

/// The parameters of an emotion expression `name=value,name=value,...`;
/// parts that do not parse are skipped.
pub open spec fn parse_emotions(s: Seq<char>) -> Seq<(Seq<char>, i32)> {
    if trim(s).len() == 0 {
        Seq::empty()
    } else {
        parse_params(split_parts(s, ','))
    }
}

/// `name=value` for one parameter.
pub open spec fn param_text(p: (Seq<char>, i32)) -> Seq<char> {
    p.0 + seq!['='] + decimal(p.1 as int)
}

/// The emotion expression of `ps`: each `name=value`, joined by commas.
pub open spec fn emotion_string(ps: Seq<(Seq<char>, i32)>) -> Seq<char>
    decreases ps.len(),
{
    if ps.len() == 0 {
        Seq::empty()
    } else if ps.len() == 1 {
        param_text(ps[0])
    } else {
        emotion_string(ps.drop_last()) + seq![','] + param_text(ps.last())
    }
}

impl EmotionParam {
    /// A parameter named `name` with intensity `value`.
    pub fn new(name: &str, value: i32) -> (r: Self)
        ensures
            r.name@ == name@,
            r.value == value,
    {
        EmotionParam { name: name.to_owned(), value }
    }
}

fn split_at_separator(s: &[char], sep: char) -> (r: Vec<Vec<char>>)
    ensures
        views(r@) == split_parts(s@, sep),
{
    let mut done: Vec<Vec<char>> = Vec::new();
    let mut open: Vec<char> = Vec::new();
    let mut i: usize = 0;
    while i < s.len()
        invariant
            i <= s@.len(),
            split_scan(s@.take(i as int), sep) == (views(done@), open@),
        decreases s@.len() - i,
    {
        let c = s[i];
        assert(s@.take(i + 1).drop_last() =~= s@.take(i as int));
        if c == sep {
            let ghost before = done@;
            done.push(open);
            open = Vec::new();
            assert(views(done@) =~= views(before).push(
                done@.last()@,
            ));
        } else {
            open.push(c);
        }
        i += 1;
    }
    assert(s@.take(s@.len() as int) =~= s@);
    let ghost before = done@;
    done.push(open);
    assert(views(done@) =~= views(before).push(
        done@.last()@,
    ));
    done
}

fn find_first(s: &[char], c: char) -> (r: Option<usize>)
    ensures
        match r {
            Some(k) => first_index(s@, c) == Some(k as int),
            None => first_index(s@, c) is None,
        },
{
    let mut i: usize = 0;
    assert(s@.skip(0) =~= s@);
    while i < s.len()
        invariant
            i <= s@.len(),
            first_index(s@, c) == match first_index(s@.skip(i as int), c) {
                Some(k) => Some(k + i),
                None => None,
            },
        decreases s@.len() - i,
    {
        assert(s@.skip(i as int).drop_first() =~= s@.skip(i + 1));
        if s[i] == c {
            return Some(i);
        }
        i += 1;
    }
    None
}

fn parse_part(part: &[char]) -> (r: Option<EmotionParam>)
    ensures
        match r {
            Some(e) => parse_param(part@) == Some((e.name@, e.value)),
            None => parse_param(part@) is None,
        },
{
    let p = trim_chars(part);
    match find_first(p.as_slice(), '=') {
        Some(k) => {
            proof {
                lemma_first_index_bound(p@, '=');
            }
            let after = slice_chars(p.as_slice(), k + 1, p.len());
            assert(after@ =~= p@.skip(k + 1));
            match parse_i32_chars(after.as_slice()) {
                Some(v) => {
                    let before = slice_chars(p.as_slice(), 0, k);
                    assert(before@ =~= p@.take(k as int));
                    let name = trim_chars(before.as_slice());
                    Some(EmotionParam { name: string_of(name.as_slice()), value: v })
                },
                None => None,
            }
        },
        None => None,
    }
}

proof fn lemma_first_index_bound(s: Seq<char>, c: char)
    ensures
        match first_index(s, c) {
            Some(k) => 0 <= k < s.len() && s[k] == c,
            None => true,
        },
    decreases s.len(),
{
    if s.len() > 0 && s[0] != c {
        lemma_first_index_bound(s.drop_first(), c);
    }
}

/// The parameters of an emotion expression such as `happy=50,sad=20`.
pub fn parse_emotion_string(emotion: &str) -> (r: Vec<EmotionParam>)
    ensures
        params_view(r@) == parse_emotions(emotion@),
{
    let cs = chars_of(emotion);
    let mut r: Vec<EmotionParam> = Vec::new();
    if trim_chars(cs.as_slice()).len() == 0 {
        assert(params_view(r@) =~= Seq::<(Seq<char>, i32)>::empty());
        return r;
    }
    let parts = split_at_separator(cs.as_slice(), ',');
    let ghost part_views = views(parts@);
    let mut i: usize = 0;
    while i < parts.len()
        invariant
            i <= parts@.len(),
            part_views == views(parts@),
            params_view(r@) == parse_params(part_views.take(i as int)),
        decreases parts@.len() - i,
    {
        assert(part_views.take(i + 1).drop_last() =~= part_views.take(i as int));
        assert(part_views.take(i + 1).last() == parts@[i as int]@);
        let ghost before = r@;
        match parse_part(parts[i].as_slice()) {
            Some(e) => {
                r.push(e);
                assert(params_view(r@) =~= params_view(before).push((e.name@, e.value)));
            },
            None => {},
        }
        i += 1;
    }
    assert(part_views.take(parts@.len() as int) =~= part_views);
    r
}

/// The emotion expression of `emotions`: `name=value` for each, joined by
/// commas; empty where there are none.
pub fn emotion_text(emotions: &Vec<EmotionParam>) -> (r: String)
    ensures
        r@ == emotion_string(params_view(emotions@)),
{
    let ghost ps = params_view(emotions@);
    let mut out: Vec<char> = Vec::new();
    let mut i: usize = 0;
    while i < emotions.len()
        invariant
            i <= emotions@.len(),
            ps == params_view(emotions@),
            out@ == emotion_string(ps.take(i as int)),
        decreases emotions@.len() - i,
    {
        let ghost prev = out@;
        let e = &emotions[i];
        if i > 0 {
            out.push(',');
        }
        push_text(&mut out, e.name.as_str());
        out.push('=');
        push_decimal(&mut out, e.value);
        let ghost t = ps.take(i + 1);
        assert(t.drop_last() =~= ps.take(i as int));
        assert(t.last() == (e.name@, e.value));
        if i == 0 {
            assert(out@ =~= param_text(t[0]));
        } else {
            assert(out@ =~= prev + seq![','] + param_text(t.last()));
        }
        i += 1;
    }
    assert(ps.take(emotions@.len() as int) =~= ps);
    string_of(out.as_slice())
}

/// Whether `a` and `b` hold the same characters.
pub fn same_text(a: &str, b: &str) -> (r: bool)
    ensures
        r == (a@ == b@),
{
    let x = chars_of(a);
    let y = chars_of(b);
    if x.len() != y.len() {
        return false;
    }
    let mut i: usize = 0;
    while i < x.len()
        invariant
            i <= x@.len() == y@.len(),
            x@ == a@,
            y@ == b@,
            x@.take(i as int) == y@.take(i as int),
        decreases x@.len() - i,
    {
        if x[i] != y[i] {
            assert(x@[i as int] != y@[i as int]);
            return false;
        }
        assert(x@.take(i + 1) =~= x@.take(i as int).push(x@[i as int]));
        assert(y@.take(i + 1) =~= y@.take(i as int).push(y@[i as int]));
        i += 1;
    }
    assert(x@.take(x@.len() as int) =~= x@);
    assert(y@.take(y@.len() as int) =~= y@);
    true
}

/// A named bundle of voice settings.
pub struct VoicePreset {
    pub name: String,
    pub narrator: String,
    pub emotions: Vec<EmotionParam>,
    pub pitch: Option<i32>,
    pub speed: Option<i32>,
}

impl VoicePreset {
    /// A preset with the given emotions and no pitch or speed of its own.
    pub fn new(name: &str, narrator: &str, emotions: Vec<EmotionParam>) -> (r: Self)
        ensures
            r.name@ == name@,
            r.narrator@ == narrator@,
            r.emotions == emotions,
            r.pitch is None,
            r.speed is None,
    {
        VoicePreset {
            name: name.to_owned(),
            narrator: narrator.to_owned(),
            emotions,
            pitch: None,
            speed: None,
        }
    }

    /// A preset whose emotions are read from an emotion expression.
    pub fn new_from_emotion_string(name: &str, narrator: &str, emotion: &str) -> (r: Self)
        ensures
            r.name@ == name@,
            r.narrator@ == narrator@,
            params_view(r.emotions@) == parse_emotions(emotion@),
            r.pitch is None,
            r.speed is None,
    {
        let emotions = parse_emotion_string(emotion);
        Self::new(name, narrator, emotions)
    }

    /// The preset's emotion expression; empty where it has no emotions.
    pub fn get_emotion_string(&self) -> (r: String)
        ensures
            r@ == emotion_string(params_view(self.emotions@)),
    {
        emotion_text(&self.emotions)
    }
}

/// The position of the last preset named `name` in `ps`.
pub open spec fn last_named(ps: Seq<VoicePreset>, name: Seq<char>) -> Option<int>
    decreases ps.len(),
{
    if ps.len() == 0 {
        None
    } else if ps.last().name@ == name {
        Some(ps.len() - 1)
    } else {
        last_named(ps.drop_last(), name)
    }
}

/// The presets by name; where names repeat, the later preset wins.
pub open spec fn presets_by_name(ps: Seq<VoicePreset>) -> Map<Seq<char>, VoicePreset> {
    Map::new(|n: Seq<char>| last_named(ps, n) is Some, |n: Seq<char>| ps[last_named(ps, n)->0])
}

proof fn lemma_last_named_bound(ps: Seq<VoicePreset>, name: Seq<char>)
    ensures
        match last_named(ps, name) {
            Some(i) => 0 <= i < ps.len() && ps[i].name@ == name,
            None => true,
        },
    decreases ps.len(),
{
    if ps.len() > 0 && ps.last().name@ != name {
        lemma_last_named_bound(ps.drop_last(), name);
    }
}

/// Lookup of presets by name.
pub struct PresetMap<'a> {
    presets: &'a Vec<VoicePreset>,
}

impl<'a> View for PresetMap<'a> {
    type V = Map<Seq<char>, VoicePreset>;

    closed spec fn view(&self) -> Map<Seq<char>, VoicePreset> {
        presets_by_name(self.presets@)
    }
}

impl<'a> PresetMap<'a> {
    /// The preset named `name`, if any.
    pub fn get(&self, name: &str) -> (r: Option<&'a VoicePreset>)
        ensures
            match r {
                Some(p) => self@.contains_key(name@) && *p == self@[name@],
                None => !self@.contains_key(name@),
            },
    {
        let ps = self.presets;
        let mut i: usize = ps.len();
        assert(ps@.take(i as int) =~= ps@);
        while i > 0
            invariant
                i <= ps@.len(),
                ps == self.presets,
                last_named(ps@, name@) == last_named(ps@.take(i as int), name@),
            decreases i,
        {
            let p = &ps[i - 1];
            assert(ps@.take(i as int).drop_last() =~= ps@.take(i - 1));
            if same_text(p.name.as_str(), name) {
                assert(last_named(ps@, name@) == Some(i - 1));
                assert(self@.contains_key(name@));
                return Some(p);
            }
            i -= 1;
        }
        None
    }
}

/// The presets and which of them applies by default.
pub struct Config {
    pub default_preset: Option<String>,
    pub presets: Vec<VoicePreset>,
}

/// The presets of `config`, by name.
pub fn get_presets_map(config: &Config) -> (r: PresetMap<'_>)
    ensures
        r@ == presets_by_name(config.presets@),
{
    PresetMap { presets: &config.presets }
}

/// The name of the preset that applies when the configuration names none.
pub const DEFAULT_PRESET_NAME: &'static str = "karin-normal";

/// The narrator of the built-in presets.
pub const DEFAULT_NARRATOR: &'static str = "夏色花梨";

/// Whether `p` is the built-in preset `name`: the default narrator, at most
/// one emotion, and the given pitch.
pub open spec fn is_builtin_preset(
    p: VoicePreset,
    name: Seq<char>,
    emotion: Option<(Seq<char>, i32)>,
    pitch: Option<i32>,
) -> bool {
    &&& p.name@ == name
    &&& p.narrator@ == DEFAULT_NARRATOR@
    &&& params_view(p.emotions@) == match emotion {
        Some(e) => seq![e],
        None => Seq::empty(),
    }
    &&& p.pitch == pitch
    &&& p.speed is None
}

fn builtin_preset(name: &str, emotion: Option<(&str, i32)>, pitch: Option<i32>) -> (r: VoicePreset)
    ensures
        is_builtin_preset(
            r,
            name@,
            match emotion {
                Some(e) => Some((e.0@, e.1)),
                None => None,
            },
            pitch,
        ),
{
    let mut emotions: Vec<EmotionParam> = Vec::new();
    match emotion {
        Some(e) => {
            emotions.push(EmotionParam::new(e.0, e.1));
            assert(params_view(emotions@) =~= seq![(e.0@, e.1)]);
        },
        None => {
            assert(params_view(emotions@) =~= Seq::<(Seq<char>, i32)>::empty());
        },
    }
    VoicePreset {
        name: name.to_owned(),
        narrator: DEFAULT_NARRATOR.to_owned(),
        emotions,
        pitch,
        speed: None,
    }
}

impl Default for Config {
    /// The built-in presets, `karin-normal` applying by default.
    fn default() -> (r: Self)
        ensures
            r.default_preset matches Some(d) && d@ == DEFAULT_PRESET_NAME@,
            r.presets@.len() == 5,
            is_builtin_preset(r.presets@[0], "karin-normal"@, None, None),
            is_builtin_preset(r.presets@[1], "karin-happy"@, Some(("hightension"@, 50i32)), Some(50i32)),
            is_builtin_preset(r.presets@[2], "karin-angry"@, Some(("buchigire"@, 50i32)), Some(-50i32)),
            is_builtin_preset(r.presets@[3], "karin-sad"@, Some(("nageki"@, 50i32)), Some(-30i32)),
            is_builtin_preset(r.presets@[4], "karin-whisper"@, Some(("sasayaki"@, 50i32)), Some(-20i32)),
    {
        let mut presets: Vec<VoicePreset> = Vec::new();
        presets.push(builtin_preset("karin-normal", None, None));
        presets.push(builtin_preset("karin-happy", Some(("hightension", 50)), Some(50)));
        presets.push(builtin_preset("karin-angry", Some(("buchigire", 50)), Some(-50)));
        presets.push(builtin_preset("karin-sad", Some(("nageki", 50)), Some(-30)));
        presets.push(builtin_preset("karin-whisper", Some(("sasayaki", 50)), Some(-20)));
        Config { default_preset: Some(DEFAULT_PRESET_NAME.to_owned()), presets }
    }
}

/// The voice settings of one request.
pub struct VoiceSettings {
    pub narrator: String,
    pub emotion: String,
    pub speed: Option<String>,
    pub pitch: Option<String>,
}

/// Voice settings as values.
pub struct SettingsView {
    pub narrator: Seq<char>,
    pub emotion: Seq<char>,
    pub speed: Option<Seq<char>>,
    pub pitch: Option<Seq<char>>,
}

/// Why voice settings could not be resolved.
#[derive(Clone, Copy, Debug, PartialEq, Eq, Structural)]
pub enum ResolveError {
    /// The preset asked for does not exist.
    UnknownPreset,
    /// No preset applies and no narrator was given.
    NoNarrator,
}

/// The decimal text of an optional integer.
pub open spec fn opt_decimal(v: Option<i32>) -> Option<Seq<char>> {
    match v {
        Some(x) => Some(decimal(x as int)),
        None => None,
    }
}

/// A given value, else the fallback.
pub open spec fn or_else<T>(given: Option<T>, fallback: T) -> T {
    match given {
        Some(x) => x,
        None => fallback,
    }
}

/// The narrator, emotion expression, pitch and speed that a request gets
/// before explicit speed and pitch are applied: from the preset asked for
/// (which must exist); else from the configured default preset where it
/// exists, overridden by a given narrator or emotion (a given emotion also
/// drops the preset's pitch); else from the given narrator (which must be
/// there) and emotion alone.
pub open spec fn base_settings(
    presets: Map<Seq<char>, VoicePreset>,
    default_preset: Option<Seq<char>>,
    preset: Option<Seq<char>>,
    narrator: Option<Seq<char>>,
    emotion: Option<Seq<char>>,
) -> Result<(Seq<char>, Seq<char>, Option<i32>, Option<i32>), ResolveError> {
    if preset is Some {
        let name = preset->0;
        if presets.contains_key(name) {
            let p = presets[name];
            Ok((p.narrator@, emotion_string(params_view(p.emotions@)), p.pitch, p.speed))
        } else {
            Err(ResolveError::UnknownPreset)
        }
    } else if default_preset is Some && presets.contains_key(default_preset->0) {
        let p = presets[default_preset->0];
        Ok(
            (
                or_else(narrator, p.narrator@),
                or_else(emotion, emotion_string(params_view(p.emotions@))),
                if emotion is Some {
                    None
                } else {
                    p.pitch
                },
                p.speed,
            ),
        )
    } else if narrator is Some {
        Ok((narrator->0, or_else(emotion, Seq::empty()), None, None))
    } else {
        Err(ResolveError::NoNarrator)
    }
}

/// The voice settings of a request: `base_settings`, then a given speed or
/// pitch in place of the preset's.
pub open spec fn resolve(
    presets: Map<Seq<char>, VoicePreset>,
    default_preset: Option<Seq<char>>,
    preset: Option<Seq<char>>,
    narrator: Option<Seq<char>>,
    emotion: Option<Seq<char>>,
    speed: Option<Seq<char>>,
    pitch: Option<Seq<char>>,
) -> Result<SettingsView, ResolveError> {
    match base_settings(presets, default_preset, preset, narrator, emotion) {
        Ok((n, e, preset_pitch, preset_speed)) => Ok(
            SettingsView {
                narrator: n,
                emotion: e,
                speed: if speed is Some {
                    speed
                } else {
                    opt_decimal(preset_speed)
                },
                pitch: if pitch is Some {
                    pitch
                } else {
                    opt_decimal(preset_pitch)
                },
            },
        ),
        Err(err) => Err(err),
    }
}

/// The characters of an optional string.
pub open spec fn opt_text(o: Option<&str>) -> Option<Seq<char>> {
    match o {
        Some(s) => Some(s@),
        None => None,
    }
}

/// The characters of an optional owned string.
pub open spec fn opt_string(o: Option<String>) -> Option<Seq<char>> {
    match o {
        Some(s) => Some(s@),
        None => None,
    }
}

fn decimal_text(v: i32) -> (r: String)
    ensures
        r@ == decimal(v as int),
{
    let mut out: Vec<char> = Vec::new();
    push_decimal(&mut out, v);
    assert(out@ =~= decimal(v as int));
    string_of(out.as_slice())
}

fn pick(given: Option<&str>, preset_value: Option<i32>) -> (r: Option<String>)
    ensures
        opt_string(r) == if given is Some {
            opt_text(given)
        } else {
            opt_decimal(preset_value)
        },
{
    match given {
        Some(s) => Some(s.to_owned()),
        None => match preset_value {
            Some(v) => Some(decimal_text(v)),
            None => None,
        },
    }
}

/// Resolves the voice settings of a request from the configuration and the
/// values given for it.
pub fn resolve_voice(
    config: &Config,
    preset: Option<&str>,
    narrator: Option<&str>,
    emotion: Option<&str>,
    speed: Option<&str>,
    pitch: Option<&str>,
) -> (r: Result<VoiceSettings, ResolveError>)
    ensures
        match (r, resolve(
            presets_by_name(config.presets@),
            opt_string(config.default_preset),
            opt_text(preset),
            opt_text(narrator),
            opt_text(emotion),
            opt_text(speed),
            opt_text(pitch),
        )) {
            (Ok(s), Ok(v)) => s.narrator@ == v.narrator && s.emotion@ == v.emotion && opt_string(
                s.speed,
            ) == v.speed && opt_string(s.pitch) == v.pitch,
            (Err(e), Err(f)) => e == f,
            _ => false,
        },
{
    let map = get_presets_map(config);
    let (n, e, preset_pitch, preset_speed) = match preset {
        Some(name) => match map.get(name) {
            Some(p) => (p.narrator.clone(), p.get_emotion_string(), p.pitch, p.speed),
            None => {
                return Err(ResolveError::UnknownPreset);
            },
        },
        None => {
            let found = match &config.default_preset {
                Some(d) => map.get(d.as_str()),
                None => None,
            };
            match found {
                Some(p) => {
                    let n = match narrator {
                        Some(x) => x.to_owned(),
                        None => p.narrator.clone(),
                    };
                    let e = match emotion {
                        Some(x) => x.to_owned(),
                        None => p.get_emotion_string(),
                    };
                    let pp = if emotion.is_some() {
                        None
                    } else {
                        p.pitch
                    };
                    (n, e, pp, p.speed)
                },
                None => match narrator {
                    Some(x) => {
                        let e = match emotion {
                            Some(y) => y.to_owned(),
                            None => String::new(),
                        };
                        (x.to_owned(), e, None, None)
                    },
                    None => {
                        return Err(ResolveError::NoNarrator);
                    },
                },
            }
        },
    };
    Ok(
        VoiceSettings {
            narrator: n,
            emotion: e,
            speed: pick(speed, preset_speed),
            pitch: pick(pitch, preset_pitch),
        },
    )
}

/// One line of the preset listing: name, narrator, emotions (`normal`
/// where there are none), pitch where set, and a mark on the default.
pub open spec fn preset_line(p: VoicePreset, default_preset: Option<Seq<char>>) -> Seq<char> {
    let emotions = if p.emotions@.len() == 0 {
        "normal"@
    } else {
        emotion_string(params_view(p.emotions@))
    };
    let pitch = match p.pitch {
        Some(v) => ", pitch="@ + decimal(v as int),
        None => Seq::empty(),
    };
    let mark = if default_preset == Some(p.name@) {
        " (default)"@
    } else {
        Seq::empty()
    };
    "  "@ + p.name@ + " - "@ + p.narrator@ + " ("@ + emotions + pitch + ")"@ + mark
}

/// The preset listing: a heading, a line per preset in order, a blank line
/// and the default preset.
pub open spec fn preset_listing(ps: Seq<VoicePreset>, default_preset: Option<Seq<char>>) -> Seq<
    Seq<char>,
> {
    seq!["Available presets:"@] + ps.map_values(|p: VoicePreset| preset_line(p, default_preset))
        + seq![
        Seq::empty(),
        match default_preset {
            Some(d) => "Default preset: "@ + d,
            None => "No default preset set"@,
        },
    ]
}

fn preset_line_text(p: &VoicePreset, default_preset: &Option<String>) -> (r: String)
    ensures
        r@ == preset_line(*p, opt_string(*default_preset)),
{
    let mut out: Vec<char> = Vec::new();
    push_text(&mut out, "  ");
    push_text(&mut out, p.name.as_str());
    push_text(&mut out, " - ");
    push_text(&mut out, p.narrator.as_str());
    push_text(&mut out, " (");
    if p.emotions.len() == 0 {
        push_text(&mut out, "normal");
    } else {
        let e = p.get_emotion_string();
        push_text(&mut out, e.as_str());
    }
    match p.pitch {
        Some(v) => {
            push_text(&mut out, ", pitch=");
            push_decimal(&mut out, v);
        },
        None => {},
    }
    push_text(&mut out, ")");
    let is_default = match default_preset {
        Some(d) => same_text(d.as_str(), p.name.as_str()),
        None => false,
    };
    if is_default {
        push_text(&mut out, " (default)");
    }
    assert(out@ =~= preset_line(*p, opt_string(*default_preset)));
    string_of(out.as_slice())
}

/// The lines that list the presets of `config`.
pub fn preset_lines(config: &Config) -> (r: Vec<String>)
    ensures
        r.deep_view() == preset_listing(config.presets@, opt_string(config.default_preset)),
{
    let ghost d = opt_string(config.default_preset);
    let ghost lines = config.presets@.map_values(|p: VoicePreset| preset_line(p, d));
    let mut r: Vec<String> = Vec::new();
    r.push("Available presets:".to_owned());
    let mut i: usize = 0;
    while i < config.presets.len()
        invariant
            i <= config.presets@.len(),
            d == opt_string(config.default_preset),
            lines == config.presets@.map_values(|p: VoicePreset| preset_line(p, d)),
            r.deep_view() == seq!["Available presets:"@] + lines.take(i as int),
        decreases config.presets@.len() - i,
    {
        let ghost before = r.deep_view();
        r.push(preset_line_text(&config.presets[i], &config.default_preset));
        assert(r.deep_view() =~= before.push(lines[i as int]));
        assert(seq!["Available presets:"@] + lines.take(i + 1) =~= (seq!["Available presets:"@]
            + lines.take(i as int)).push(lines[i as int]));
        i += 1;
    }
    assert(lines.take(config.presets@.len() as int) =~= lines);
    let ghost before = r.deep_view();
    r.push(String::new());
    let last = match &config.default_preset {
        Some(name) => {
            let mut out: Vec<char> = Vec::new();
            push_text(&mut out, "Default preset: ");
            push_text(&mut out, name.as_str());
            string_of(out.as_slice())
        },
        None => "No default preset set".to_owned(),
    };
    r.push(last);
    assert(r.deep_view() =~= preset_listing(config.presets@, d));
    r
}

} // verus!
