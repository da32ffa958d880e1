//! Building one synthesis request for the engine, and its command line.

use vstd::prelude::*;
use crate::invoker::{Invocation, InvocationView, Phase, DEFAULT_MAX_ATTEMPTS};

verus! {

broadcast use vstd::string::group_string_axioms;

/// Where the engine is installed.
pub const VOICEPEAK_PATH: &'static str = "/Applications/voicepeak.app/Contents/MacOS/voicepeak";

/// The fields of a synthesis request, each present or absent.
pub struct RequestView {
    pub text: Option<Seq<char>>,
    pub narrator: Option<Seq<char>>,
    pub emotion: Option<Seq<char>>,
    pub output: Option<Seq<char>>,
    pub speed: Option<Seq<char>>,
    pub pitch: Option<Seq<char>>,
}

/// The characters of an optional string.
pub open spec fn opt_view(o: Option<String>) -> Option<Seq<char>> {
    match o {
        Some(s) => Some(s@),
        None => None,
    }
}

/// A flag and its value where the value is present; nothing where absent.
pub open spec fn flag(name: Seq<char>, value: Option<Seq<char>>) -> Seq<Seq<char>> {
    match value {
        Some(v) => seq![name, v],
        None => Seq::empty(),
    }
}

/// The engine's arguments for a request, in a fixed order; an absent field
/// gives no flag at all.
pub open spec fn command_line(r: RequestView) -> Seq<Seq<char>> {
    flag("-s"@, r.text) + flag("-n"@, r.narrator) + flag("-e"@, r.emotion) + flag("-o"@, r.output)
        + flag("--speed"@, r.speed) + flag("--pitch"@, r.pitch)
}

struct CommandArgs {
    text: Option<String>,
    narrator: Option<String>,
    emotion: Option<String>,
    output: Option<String>,
    speed: Option<String>,
    pitch: Option<String>,
}

/// A synthesis request, built field by field and consumed by execution.
pub struct VoicepeakCommand {
    args: CommandArgs,
}

impl View for VoicepeakCommand {
    type V = RequestView;

    closed spec fn view(&self) -> RequestView {
        RequestView {
            text: opt_view(self.args.text),
            narrator: opt_view(self.args.narrator),
            emotion: opt_view(self.args.emotion),
            output: opt_view(self.args.output),
            speed: opt_view(self.args.speed),
            pitch: opt_view(self.args.pitch),
        }
    }
}

fn owned(s: &str) -> (r: String)
    ensures
        r@ == s@,
{
    s.to_owned()
}

fn push_flag(line: &mut Vec<String>, name: &str, value: &Option<String>)
    ensures
        final(line).deep_view() == old(line).deep_view() + flag(name@, opt_view(*value)),
{
    match value {
        Some(v) => {
            let ghost before = line.deep_view();
            line.push(owned(name));
            line.push(v.clone());
            assert(line.deep_view() =~= before + flag(name@, opt_view(*value)));
        },
        None => {
            assert(line.deep_view() =~= old(line).deep_view() + flag(name@, opt_view(*value)));
        },
    }
}

impl VoicepeakCommand {
    /// A request with no field set.
    pub fn new() -> (r: Self)
        ensures
            r@ == (RequestView {
                text: None,
                narrator: None,
                emotion: None,
                output: None,
                speed: None,
                pitch: None,
            }),
    {
        VoicepeakCommand {
            args: CommandArgs {
                text: None,
                narrator: None,
                emotion: None,
                output: None,
                speed: None,
                pitch: None,
            },
        }
    }

    /// Sets the text to speak.
    pub fn text(self, text: &str) -> (r: Self)
        ensures
            r@ == (RequestView { text: Some(text@), ..self@ }),
    {
        let mut s = self;
        s.args.text = Some(owned(text));
        s
    }

    /// Sets the narrator.
    pub fn narrator(self, narrator: &str) -> (r: Self)
        ensures
            r@ == (RequestView { narrator: Some(narrator@), ..self@ }),
    {
        let mut s = self;
        s.args.narrator = Some(owned(narrator));
        s
    }

    /// Sets the emotion expression; an empty one leaves the request as it is.
    pub fn emotion(self, emotion: &str) -> (r: Self)
        ensures
            emotion@.len() == 0 ==> r@ == self@,
            emotion@.len() > 0 ==> r@ == (RequestView { emotion: Some(emotion@), ..self@ }),
    {
        let mut s = self;
        if !emotion.is_empty() {
            s.args.emotion = Some(owned(emotion));
        }
        s
    }

    /// Sets the path of the audio file to write.
    pub fn output(self, path: &str) -> (r: Self)
        ensures
            r@ == (RequestView { output: Some(path@), ..self@ }),
    {
        let mut s = self;
        s.args.output = Some(owned(path));
        s
    }

    /// Sets the speed.
    pub fn speed(self, speed: &str) -> (r: Self)
        ensures
            r@ == (RequestView { speed: Some(speed@), ..self@ }),
    {
        let mut s = self;
        s.args.speed = Some(owned(speed));
        s
    }

    /// Sets the pitch.
    pub fn pitch(self, pitch: &str) -> (r: Self)
        ensures
            r@ == (RequestView { pitch: Some(pitch@), ..self@ }),
    {
        let mut s = self;
        s.args.pitch = Some(owned(pitch));
        s
    }

    /// The engine's arguments for this request.
    pub fn build_args(&self) -> (r: Vec<String>)
        ensures
            r.deep_view() == command_line(self@),
    {
        let mut line: Vec<String> = Vec::new();
        push_flag(&mut line, "-s", &self.args.text);
        push_flag(&mut line, "-n", &self.args.narrator);
        push_flag(&mut line, "-e", &self.args.emotion);
        push_flag(&mut line, "-o", &self.args.output);
        push_flag(&mut line, "--speed", &self.args.speed);
        push_flag(&mut line, "--pitch", &self.args.pitch);
        assert(line.deep_view() =~= command_line(self@));
        line
    }

    /// Starts executing this request quietly: the returned invocation
    /// decides, event by event, when to lock, run, retry and finish.
    pub fn execute(self) -> (r: Invocation)
        ensures
            r@ == (InvocationView {
                request: self@,
                verbose: false,
                max_attempts: DEFAULT_MAX_ATTEMPTS,
                phase: Phase::AwaitingLock,
            }),
    {
        self.execute_with_verbose(false)
    }

    /// Starts executing this request; with `verbose` the engine's own output
    /// is to be shown.
    pub fn execute_with_verbose(self, verbose: bool) -> (r: Invocation)
        ensures
            r@ == (InvocationView {
                request: self@,
                verbose,
                max_attempts: DEFAULT_MAX_ATTEMPTS,
                phase: Phase::AwaitingLock,
            }),
    {
        Invocation::new(self, verbose, DEFAULT_MAX_ATTEMPTS)
    }
}

impl Default for VoicepeakCommand {
    /// A request with no field set.
    fn default() -> (r: Self)
        ensures
            r@ == (RequestView {
                text: None,
                narrator: None,
                emotion: None,
                output: None,
                speed: None,
                pitch: None,
            }),
    {
        Self::new()
    }
}

} // verus!
