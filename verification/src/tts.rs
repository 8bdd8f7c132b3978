//! Reading aloud: which speech program is used, the Piper voices found on
//! disk and which one is selected.
use vstd::prelude::*;

use crate::paths::last_dot;
use crate::sorting::{insertion_sort, sorted_by, text_le, text_le_exec};
use crate::text::{chars_of, ends_with, push_str, string_from_range};

verus! {

/// The most characters read aloud at once.
pub const MAX_TTS_CHARS: usize = 1400;

/// A Piper voice: its name, its language, and its two files.
#[derive(Debug, Clone)]
pub struct VoiceInfo {
    pub name: String,
    pub language: String,
    pub config_path: String,
    pub onnx_path: String,
}

/// A voice found on disk; its language is `unknown` when its configuration
/// does not give one.
pub fn voice_info(name: String, language: Option<String>, config_path: String, onnx_path: String) -> (v: VoiceInfo)
    ensures
        v.name == name,
        v.config_path == config_path,
        v.onnx_path == onnx_path,
        v.language@ == match language {
            Some(l) => l@,
            None => "unknown"@,
        },
{
    let language = match language {
        Some(l) => l,
        None => crate::text::string_from(&chars_of("unknown")),
    };
    VoiceInfo { name, language, config_path, onnx_path }
}

/// The speech programs, best first; `Unavailable` when there is none.
#[derive(Debug, Clone, Copy, PartialEq, Eq, Structural)]
pub enum TtsBackend {
    Piper,
    EspeakNg,
    SpdSay,
    Espeak,
    Unavailable,
}

/// The best program at hand: Piper when its binary and at least one voice
/// are there, else espeak-ng, spd-say, espeak, or none.
pub open spec fn best_backend(piper: bool, voices: nat, espeak_ng: bool, spd_say: bool, espeak: bool) -> TtsBackend {
    if piper && voices > 0 {
        TtsBackend::Piper
    } else if espeak_ng {
        TtsBackend::EspeakNg
    } else if spd_say {
        TtsBackend::SpdSay
    } else if espeak {
        TtsBackend::Espeak
    } else {
        TtsBackend::Unavailable
    }
}

pub fn choose_backend(piper_found: bool, voices: usize, espeak_ng: bool, spd_say: bool, espeak: bool) -> (b: TtsBackend)
    ensures
        b == best_backend(piper_found, voices as nat, espeak_ng, spd_say, espeak),
{
    if piper_found && voices > 0 {
        TtsBackend::Piper
    } else if espeak_ng {
        TtsBackend::EspeakNg
    } else if spd_say {
        TtsBackend::SpdSay
    } else if espeak {
        TtsBackend::Espeak
    } else {
        TtsBackend::Unavailable
    }
}

/// `s` without every trailing `suffix` (`str::trim_end_matches`).
pub open spec fn trim_end_all(s: Seq<char>, suffix: Seq<char>) -> Seq<char>
    decreases s.len(),
{
    if suffix.len() > 0 && ends_with(s, suffix) {
        trim_end_all(s.take(s.len() - suffix.len()), suffix)
    } else {
        s
    }
}

fn trim_end_onnx(s: &Vec<char>) -> (r: String)
    ensures
        r@ == trim_end_all(s@, ".onnx"@),
{
    proof {
        reveal_strlit(".onnx");
    }
    let mut end = s.len();
    assert(s@.take(s.len() as int) =~= s@);
    while end >= 5 && s[end - 5] == '.' && s[end - 4] == 'o' && s[end - 3] == 'n' && s[end - 2] == 'n'
        && s[end - 1] == 'x'
        invariant
            end <= s.len(),
            trim_end_all(s@, ".onnx"@) == trim_end_all(s@.take(end as int), ".onnx"@),
        decreases end,
    {
        proof {
            reveal_strlit(".onnx");
            let t = s@.take(end as int);
            assert(t.skip(t.len() - 5) =~= ".onnx"@);
            assert(t.take(t.len() - 5) =~= s@.take(end - 5));
        }
        end -= 5;
    }
    proof {
        let t = s@.take(end as int);
        if ends_with(t, ".onnx"@) {
            assert(t.skip(t.len() - 5) == ".onnx"@);
            assert(t[t.len() - 5] == t.skip(t.len() - 5)[0]);
            assert(t[t.len() - 1] == t.skip(t.len() - 5)[4]);
            assert(t[t.len() - 2] == t.skip(t.len() - 5)[3]);
            assert(t[t.len() - 3] == t.skip(t.len() - 5)[2]);
            assert(t[t.len() - 4] == t.skip(t.len() - 5)[1]);
        }
        assert(s@.take(s.len() as int) =~= s@);
    }
    string_from_range(s, 0, end)
}

/// What follows the last dot of a file name, when that dot is not its
/// first character (`Path::extension` of a bare file name).
pub open spec fn name_extension(name: Seq<char>) -> Option<Seq<char>> {
    match last_dot(name, name.len() as int) {
        Some(d) => if d > 0 {
            Some(name.skip(d + 1))
        } else {
            None
        },
        None => None,
    }
}

/// The voice a configuration file in a voice directory stands for, by the
/// file's name: none unless its extension is `json`; else the name is the
/// file's stem without trailing `.onnx`, and the model is the stem itself
/// when its extension is `onnx`, or the stem with `.onnx` added.
pub open spec fn voice_files_of(file_name: Seq<char>) -> Option<(Seq<char>, Seq<char>)> {
    if name_extension(file_name) == Some("json"@) {
        let stem = file_name.take(file_name.len() - 5);
        let model = if name_extension(stem) == Some("onnx"@) {
            stem
        } else {
            stem + ".onnx"@
        };
        Some((trim_end_all(stem, ".onnx"@), model))
    } else {
        None
    }
}

/// The position of the dot that starts a file name's extension.
fn extension_dot(v: &Vec<char>) -> (r: Option<usize>)
    ensures
        match r {
            Some(d) => 0 < d < v.len() && last_dot(v@, v.len() as int) == Some(d as int),
            None => name_extension(v@) is None,
        },
{
    let mut i = v.len();
    while i > 0 && v[i - 1] != '.'
        invariant
            i <= v.len(),
            last_dot(v@, v.len() as int) == last_dot(v@, i as int),
        decreases i,
    {
        i -= 1;
    }
    if i <= 1 {
        None
    } else {
        Some(i - 1)
    }
}

fn is_text(v: &Vec<char>, start: usize, t: &str) -> (r: bool)
    requires
        start <= v.len(),
    ensures
        r == (v@.skip(start as int) == t@),
{
    let w = chars_of(t);
    if v.len() - start != w.len() {
        assert(v@.skip(start as int).len() != t@.len());
        return false;
    }
    let mut i: usize = 0;
    while i < w.len()
        invariant
            i <= w.len(),
            v.len() - start == w.len(),
            w@ == t@,
            forall|j: int| 0 <= j < i ==> v@[start + j] == w@[j],
        decreases w.len() - i,
    {
        if v[start + i] != w[i] {
            assert(v@.skip(start as int)[i as int] != t@[i as int]);
            return false;
        }
        i += 1;
    }
    assert(v@.skip(start as int) =~= t@);
    true
}

/// The voice's name and the model file's name for a configuration file in
/// a voice directory; see `voice_files_of`.
pub fn voice_files(file_name: &str) -> (r: Option<(String, String)>)
    ensures
        match r {
            Some((n, m)) => voice_files_of(file_name@) == Some((n@, m@)),
            None => voice_files_of(file_name@) is None,
        },
{
    proof {
        reveal_strlit("json");
        reveal_strlit(".onnx");
        reveal_strlit("onnx");
    }
    let v = chars_of(file_name);
    let d = match extension_dot(&v) {
        Some(d) => d,
        None => {
            return None;
        },
    };
    if !is_text(&v, d + 1, "json") {
        return None;
    }
    assert(v@.skip(d + 1).len() == 4);
    let stem = crate::text::sub_vec(&v, 0, d);
    assert(stem@ =~= file_name@.take(file_name@.len() - 5));
    let model_is_stem = match extension_dot(&stem) {
        Some(x) => is_text(&stem, x + 1, "onnx"),
        None => false,
    };
    let mut model = string_from_range(&v, 0, d);
    if !model_is_stem {
        push_str(&mut model, ".onnx");
    }
    let name = trim_end_onnx(&stem);
    Some((name, model))
}

/// The voices sorted by name; voices of one name keep their order.
pub open spec fn voice_le(a: VoiceInfo, b: VoiceInfo) -> bool {
    text_le(a.name@, b.name@)
}

pub fn sort_voices(voices: Vec<VoiceInfo>) -> (r: Vec<VoiceInfo>)
    ensures
        r@ == sorted_by(voices@, |a: VoiceInfo, b: VoiceInfo| voice_le(a, b)),
{
    let le = |a: &VoiceInfo, b: &VoiceInfo| -> (r: bool)
        ensures
            r == voice_le(*a, *b),
        { text_le_exec(a.name.as_str(), b.name.as_str()) };
    insertion_sort(voices, le, Ghost(|a: VoiceInfo, b: VoiceInfo| voice_le(a, b)))
}

pub type VoiceView = (Seq<char>, Seq<char>, Seq<char>, Seq<char>);

pub open spec fn voice_view(v: VoiceInfo) -> VoiceView {
    (v.name@, v.language@, v.config_path@, v.onnx_path@)
}

pub fn copy_voice(v: &VoiceInfo) -> (r: VoiceInfo)
    ensures
        voice_view(r) == voice_view(*v),
{
    VoiceInfo {
        name: v.name.clone(),
        language: v.language.clone(),
        config_path: v.config_path.clone(),
        onnx_path: v.onnx_path.clone(),
    }
}

/// The position of the first voice of a name.
pub open spec fn voice_position(voices: Seq<VoiceInfo>, name: Seq<char>) -> Option<int>
    decreases voices.len(),
{
    if voices.len() == 0 {
        None
    } else if voices[0].name@ == name {
        Some(0)
    } else {
        match voice_position(voices.drop_first(), name) {
            Some(i) => Some(i + 1),
            None => None,
        }
    }
}

pub fn find_voice(voices: &Vec<VoiceInfo>, name: &str) -> (r: Option<usize>)
    ensures
        match r {
            Some(i) => voice_position(voices@, name@) == Some(i as int),
            None => voice_position(voices@, name@) is None,
        },
{
    let mut i: usize = 0;
    assert(voices@.skip(0) =~= voices@);
    while i < voices.len()
        invariant
            i <= voices.len(),
            voice_position(voices@, name@) == match voice_position(voices@.skip(i as int), name@) {
                Some(k) => Some(k + i),
                None => None::<int>,
            },
        decreases voices.len() - i,
    {
        assert(voices@.skip(i as int)[0] == voices@[i as int]);
        assert(voices@.skip(i as int).drop_first() =~= voices@.skip(i + 1));
        if crate::text::str_eq(voices[i].name.as_str(), name) {
            return Some(i);
        }
        i += 1;
    }
    None
}

/// The voices the reader can speak with and the one selected: at first the
/// first voice, when there is one.
pub struct VoiceChoice {
    pub voices: Vec<VoiceInfo>,
    pub selected: Option<VoiceInfo>,
}

pub open spec fn voice_option_view(v: Option<VoiceInfo>) -> Option<VoiceView> {
    match v {
        Some(x) => Some(voice_view(x)),
        None => None,
    }
}

impl VoiceChoice {
    pub fn new(voices: Vec<VoiceInfo>) -> (c: VoiceChoice)
        ensures
            c.voices@ == voices@,
            voice_option_view(c.selected) == if voices@.len() > 0 {
                Some(voice_view(voices@[0]))
            } else {
                None
            },
    {
        let selected = if voices.len() > 0 {
            Some(copy_voice(&voices[0]))
        } else {
            None
        };
        VoiceChoice { voices, selected }
    }

    /// Selects the first voice of a name; with no such voice the selection
    /// stays.
    pub fn set_voice(&mut self, voice_name: &str)
        ensures
            final(self).voices@ == old(self).voices@,
            voice_option_view(final(self).selected) == match voice_position(old(self).voices@, voice_name@) {
                Some(i) => Some(voice_view(old(self).voices@[i])),
                None => voice_option_view(old(self).selected),
            },
    {
        match find_voice(&self.voices, voice_name) {
            Some(i) => {
                proof {
                    lemma_voice_position_bound(self.voices@, voice_name@);
                }
                let v = copy_voice(&self.voices[i]);
                self.selected = Some(v);
            },
            None => {},
        }
    }
}

proof fn lemma_voice_position_bound(voices: Seq<VoiceInfo>, name: Seq<char>)
    ensures
        voice_position(voices, name) matches Some(i) ==> 0 <= i < voices.len() && voices[i].name@ == name,
    decreases voices.len(),
{
    if voices.len() > 0 && voices[0].name@ != name {
        lemma_voice_position_bound(voices.drop_first(), name);
    }
}

} // verus!
