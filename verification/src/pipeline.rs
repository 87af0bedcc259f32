//! The decisions of the dictation pipeline, as functions from state and
//! event to the next step: what to do with a transcript, what to reload
//! when settings change, what the push-to-talk key does, and what the
//! status panel shows. The application performs each step.
use vstd::prelude::*;
use crate::config::{first_snippet, snippet_key, Config};
use crate::refiner::{
    action_named, apply_commands, check_action, command_text, refine_rules_only,
    refine_with_reply, refined_with, rules_only, model_rewrite, with_commands, Action,
};
use crate::text::{trim_start, trim_end, trim_chars, opt_view, append_str, chars_equal, chars_of, decimal, decimal_string, trim, trim_str};

verus! {

broadcast use vstd::string::group_string_axioms;

// ---------------------------------------------------------------------------
// Transcript

/// What the pipeline does with a transcript.
#[derive(Debug)]
pub enum Plan {
    /// Nothing was said.
    Nothing,
    /// Undo: press backspace `count` times, then forget the last paste.
    DeleteLast { count: usize },
    /// Undo, with nothing pasted before.
    NothingToDelete,
    /// Select all in the focused application.
    SelectAll,
    /// Paste a snippet's replacement.
    Snippet { text: String },
    /// Nothing but filler words was said.
    SkipFiller,
    /// Ask the rewrite model about `cleaned`, then call `finish_rewrite`.
    AskModel { cleaned: String },
    /// Paste `text`.
    Paste { text: String },
}

/// The mathematical form of a `Plan`.
pub enum PlanView {
    Nothing,
    DeleteLast { count: nat },
    NothingToDelete,
    SelectAll,
    Snippet { text: Seq<char> },
    SkipFiller,
    AskModel { cleaned: Seq<char> },
    Paste { text: Seq<char> },
}

impl View for Plan {
    type V = PlanView;

    open spec fn view(&self) -> PlanView {
        match self {
            Plan::Nothing => PlanView::Nothing,
            Plan::DeleteLast { count } => PlanView::DeleteLast { count: *count as nat },
            Plan::NothingToDelete => PlanView::NothingToDelete,
            Plan::SelectAll => PlanView::SelectAll,
            Plan::Snippet { text } => PlanView::Snippet { text: text@ },
            Plan::SkipFiller => PlanView::SkipFiller,
            Plan::AskModel { cleaned } => PlanView::AskModel { cleaned: cleaned@ },
            Plan::Paste { text } => PlanView::Paste { text: text@ },
        }
    }
}

/// The text that is pasted for `out`: with dictation commands applied when
/// they are enabled (after any rewriting, so that the model never sees
/// them).
pub open spec fn final_text(cfg: Config, out: Seq<char>) -> Seq<char> {
    if cfg.dictation_enabled {
        with_commands(out)
    } else {
        out
    }
}

/// What the refiner mode makes of a transcript that is neither an action
/// nor a snippet.
pub open spec fn refine_plan(cfg: Config, text: Seq<char>, model_loaded: bool) -> PlanView {
    if cfg.refiner_mode@ == "clean"@ || (cfg.refiner_mode@ == "rewrite"@ && !model_loaded) {
        match rules_only(text) {
            None => PlanView::SkipFiller,
            Some(c) => PlanView::Paste { text: final_text(cfg, c) },
        }
    } else if cfg.refiner_mode@ == "rewrite"@ {
        match rules_only(text) {
            None => PlanView::SkipFiller,
            Some(c) => PlanView::AskModel { cleaned: c },
        }
    } else {
        PlanView::Paste { text: final_text(cfg, text) }
    }
}

/// What the pipeline does with the raw transcript `raw`, given the text
/// pasted last (`last`) and whether the rewrite model is loaded: action
/// commands first (when dictation is on), then snippets (on the
/// unrefined text), then refinement by mode.
pub open spec fn plan_for(cfg: Config, raw: Seq<char>, last: Seq<char>, model_loaded: bool) -> PlanView {
    let text = trim(raw);
    let action = action_named(command_text(text));
    if text.len() == 0 {
        PlanView::Nothing
    } else if cfg.dictation_enabled && action == Action::Undo {
        if last.len() > 0 {
            PlanView::DeleteLast { count: last.len() }
        } else {
            PlanView::NothingToDelete
        }
    } else if cfg.dictation_enabled && action == Action::SelectAll {
        PlanView::SelectAll
    } else {
        match first_snippet(snippet_key(text), cfg.snippets@) {
            Some(rep) => PlanView::Snippet { text: rep },
            None => refine_plan(cfg, text, model_loaded),
        }
    }
}

fn final_text_of(cfg: &Config, out: String) -> (r: String)
    ensures
        r@ == final_text(*cfg, out@),
{
    if cfg.dictation_enabled {
        apply_commands(out.as_str())
    } else {
        out
    }
}

fn mode_is(cfg: &Config, mode: &str) -> (b: bool)
    ensures
        b == (cfg.refiner_mode@ == mode@),
{
    let v = chars_of(cfg.refiner_mode.as_str());
    chars_equal(v.as_slice(), mode)
}

/// Decides what to do with a transcript.
pub fn plan_transcript(cfg: &Config, raw: &str, last_pasted: &str, model_loaded: bool) -> (p: Plan)
    ensures
        p@ == plan_for(*cfg, raw@, last_pasted@, model_loaded),
{
    let text = trim_str(raw);
    if text.as_str().is_empty() {
        return Plan::Nothing;
    }
    if cfg.dictation_enabled {
        match check_action(text.as_str()) {
            Action::Undo => {
                let last = chars_of(last_pasted);
                if last.len() > 0 {
                    return Plan::DeleteLast { count: last.len() };
                } else {
                    return Plan::NothingToDelete;
                }
            },
            Action::SelectAll => {
                return Plan::SelectAll;
            },
            Action::NoAction => {},
        }
    }
    if let Some(rep) = cfg.match_snippet(text.as_str()) {
        return Plan::Snippet { text: rep };
    }
    let clean = mode_is(cfg, "clean");
    let rewrite = mode_is(cfg, "rewrite");
    if clean || (rewrite && !model_loaded) {
        match refine_rules_only(text.as_str()) {
            None => Plan::SkipFiller,
            Some(c) => Plan::Paste { text: final_text_of(cfg, c) },
        }
    } else if rewrite {
        match refine_rules_only(text.as_str()) {
            None => Plan::SkipFiller,
            Some(c) => Plan::AskModel { cleaned: c },
        }
    } else {
        Plan::Paste { text: final_text_of(cfg, text) }
    }
}

/// The text pasted once the rewrite model has answered `reply` (or not)
/// about `cleaned`.
pub open spec fn rewrite_result(cfg: Config, cleaned: Seq<char>, reply: Option<Seq<char>>) -> Seq<char> {
    final_text(cfg, refined_with(cleaned, reply))
}

/// Completes an `AskModel` step with the model's reply.
pub fn finish_rewrite(cfg: &Config, cleaned: String, reply: Option<String>) -> (p: Plan)
    ensures
        p@ == (PlanView::Paste { text: rewrite_result(*cfg, cleaned@, opt_view(reply)) }),
{
    let out = refine_with_reply(cleaned, reply);
    Plan::Paste { text: final_text_of(cfg, out) }
}

/// What is put on the clipboard, and remembered for undo, when `text` is
/// pasted: the text and a trailing space.
pub open spec fn pasted(text: Seq<char>) -> Seq<char> {
    text + " "@
}

/// The clipboard contents for pasting `text`.
pub fn pasted_text(text: &str) -> (r: String)
    ensures
        r@ == pasted(text@),
{
    let mut r = text.to_owned();
    append_str(&mut r, " ");
    r
}

// ---------------------------------------------------------------------------
// Settings changes

/// What to do with the rewrite model after a settings change.
#[derive(Debug, PartialEq, Eq, Structural, Clone, Copy)]
pub enum RefinerChange {
    Keep,
    Load,
    Unload,
}

/// The models to reload after the settings change from `old` to `new`.
#[derive(Debug, Clone, Copy)]
pub struct ReloadPlan {
    pub reload_whisper: bool,
    pub refiner: RefinerChange,
}

/// What changing the settings from `old` to `new` asks of the rewrite
/// model: nothing when neither its mode nor its model changed; otherwise
/// load it in "rewrite" mode and unload it in any other.
pub open spec fn refiner_change(old: Config, new: Config) -> RefinerChange {
    if new.refiner_mode@ == old.refiner_mode@ && new.refiner_model@ == old.refiner_model@ {
        RefinerChange::Keep
    } else if new.refiner_mode@ == "rewrite"@ {
        RefinerChange::Load
    } else {
        RefinerChange::Unload
    }
}

fn same_text(a: &String, b: &String) -> (r: bool)
    ensures
        r == (a@ == b@),
{
    let v = chars_of(a.as_str());
    chars_equal(v.as_slice(), b.as_str())
}

/// Which models to reload after the settings change from `old` to `new`.
pub fn reload_plan(old: &Config, new: &Config) -> (r: ReloadPlan)
    ensures
        r.reload_whisper == (new.whisper_model@ != old.whisper_model@),
        r.refiner == refiner_change(*old, *new),
{
    let reload_whisper = !same_text(&new.whisper_model, &old.whisper_model);
    let refiner = if same_text(&new.refiner_mode, &old.refiner_mode) && same_text(
        &new.refiner_model,
        &old.refiner_model,
    ) {
        RefinerChange::Keep
    } else if mode_is(new, "rewrite") {
        RefinerChange::Load
    } else {
        RefinerChange::Unload
    };
    ReloadPlan { reload_whisper, refiner }
}

// ---------------------------------------------------------------------------
// Push-to-talk

/// What one poll of the push-to-talk key asks for.
#[derive(Debug, PartialEq, Eq, Structural, Clone, Copy)]
pub enum HotkeyEvent {
    Idle,
    StartRecording,
    StopRecording,
}

/// The event for a poll that finds the key `held` while `recording`.
pub open spec fn hotkey_event(recording: bool, held: bool) -> HotkeyEvent {
    if held && !recording {
        HotkeyEvent::StartRecording
    } else if !held && recording {
        HotkeyEvent::StopRecording
    } else {
        HotkeyEvent::Idle
    }
}

/// One poll of the push-to-talk key: the recording state after the poll
/// (recording exactly while the key is held) and the event to act on.
pub fn hotkey_step(recording: bool, held: bool) -> (r: (bool, HotkeyEvent))
    ensures
        r.0 == held,
        r.1 == hotkey_event(recording, held),
{
    if held && !recording {
        (true, HotkeyEvent::StartRecording)
    } else if !held && recording {
        (false, HotkeyEvent::StopRecording)
    } else {
        (held, HotkeyEvent::Idle)
    }
}

// ---------------------------------------------------------------------------
// Status panel

/// The model names and states that the status panel shows.
#[derive(Debug)]
pub struct ModelStatus {
    pub whisper: String,
    pub whisper_status: String,
    pub refiner: String,
    pub refiner_status: String,
}

/// The refiner name shown: the model when refinement is on.
pub open spec fn refiner_label(cfg: Config) -> Seq<char> {
    if cfg.use_refiner {
        cfg.refiner_model@
    } else {
        "Disabled"@
    }
}

fn refiner_label_of(cfg: &Config) -> (r: String)
    ensures
        r@ == refiner_label(*cfg),
{
    if cfg.use_refiner {
        cfg.refiner_model.clone()
    } else {
        "Disabled".to_owned()
    }
}

/// The status panel while models load or run.
pub fn model_status(cfg: &Config, whisper_loaded: bool, refiner_loaded: bool) -> (s: ModelStatus)
    ensures
        s.whisper@ == cfg.whisper_model@,
        s.whisper_status@ == (if whisper_loaded { "Loaded"@ } else { "Loading..."@ }),
        s.refiner@ == refiner_label(*cfg),
        s.refiner_status@ == (if refiner_loaded {
            "Loaded (LLM)"@
        } else if cfg.use_refiner {
            "Loading..."@
        } else {
            "Off"@
        }),
{
    ModelStatus {
        whisper: cfg.whisper_model.clone(),
        whisper_status: if whisper_loaded { "Loaded".to_owned() } else { "Loading...".to_owned() },
        refiner: refiner_label_of(cfg),
        refiner_status: if refiner_loaded {
            "Loaded (LLM)".to_owned()
        } else if cfg.use_refiner {
            "Loading...".to_owned()
        } else {
            "Off".to_owned()
        },
    }
}

/// The status announced once the speech model has loaded, before and
/// after the rewrite model is tried: rules serve while no model is loaded.
pub fn loaded_status(cfg: &Config, refiner_loaded: bool) -> (s: ModelStatus)
    ensures
        s.whisper@ == cfg.whisper_model@,
        s.whisper_status@ == "Loaded"@,
        s.refiner@ == refiner_label(*cfg),
        s.refiner_status@ == (if refiner_loaded {
            "Loaded"@
        } else if cfg.use_refiner {
            "Rule-based"@
        } else {
            "Off"@
        }),
{
    ModelStatus {
        whisper: cfg.whisper_model.clone(),
        whisper_status: "Loaded".to_owned(),
        refiner: refiner_label_of(cfg),
        refiner_status: if refiner_loaded {
            "Loaded".to_owned()
        } else if cfg.use_refiner {
            "Rule-based".to_owned()
        } else {
            "Off".to_owned()
        },
    }
}

// ---------------------------------------------------------------------------
// Speech model prompt and key scripts

/// `words` joined with ", ".
pub open spec fn joined(words: Seq<Seq<char>>) -> Seq<char>
    decreases words.len(),
{
    if words.len() == 0 {
        Seq::empty()
    } else if words.len() == 1 {
        words[0]
    } else {
        joined(words.drop_last()) + ", "@ + words.last()
    }
}

/// The prompt that biases the speech model toward the personal dictionary:
/// none for an empty dictionary.
pub open spec fn dictionary_prompt(words: Seq<Seq<char>>) -> Option<Seq<char>> {
    if words.len() == 0 {
        None
    } else {
        Some("The following words may appear: "@ + joined(words) + "."@)
    }
}

/// The speech model's initial prompt for the personal dictionary.
pub fn initial_prompt(dictionary: &Vec<String>) -> (r: Option<String>)
    ensures
        r is None <==> dictionary@.len() == 0,
        r matches Some(s) ==> dictionary_prompt(dictionary@.map_values(|w: String| w@)) == Some(s@),
{
    let ghost words = dictionary@.map_values(|w: String| w@);
    let n = dictionary.len();
    if n == 0 {
        return None;
    }
    let mut list = dictionary[0].clone();
    let mut i: usize = 1;
    assert(words.take(1).drop_last() =~= Seq::<Seq<char>>::empty());
    while i < n
        invariant
            n == dictionary@.len(),
            words == dictionary@.map_values(|w: String| w@),
            1 <= i <= n,
            list@ == joined(words.take(i as int)),
        decreases n - i,
    {
        append_str(&mut list, ", ");
        append_str(&mut list, dictionary[i].as_str());
        assert(words.take(i + 1).drop_last() =~= words.take(i as int));
        i += 1;
    }
    assert(words.take(n as int) =~= words);
    let mut r = "The following words may appear: ".to_owned();
    append_str(&mut r, list.as_str());
    append_str(&mut r, ".");
    Some(r)
}

/// The AppleScript that presses backspace `n` times.
pub open spec fn backspace_script_for(n: nat) -> Seq<char> {
    "tell application \"System Events\" to repeat "@ + decimal(n) + " times\nkey code 51\nend repeat"@
}

/// AppleScript that presses backspace `n` times (to delete the last paste).
pub fn backspace_script(n: usize) -> (r: String)
    ensures
        r@ == backspace_script_for(n as nat),
{
    let mut r = "tell application \"System Events\" to repeat ".to_owned();
    let count = decimal_string(n as u64);
    append_str(&mut r, count.as_str());
    append_str(&mut r, " times\nkey code 51\nend repeat");
    r
}

/// The AppleScript that presses Command and `key`.
pub open spec fn command_key_script_for(key: Seq<char>) -> Seq<char> {
    "tell application \"System Events\" to keystroke \""@ + key + "\" using command down"@
}

/// AppleScript that presses Command together with `key`.
pub fn command_key_script(key: &str) -> (r: String)
    ensures
        r@ == command_key_script_for(key@),
{
    let mut r = "tell application \"System Events\" to keystroke \"".to_owned();
    append_str(&mut r, key);
    append_str(&mut r, "\" using command down");
    r
}

/// The file of a speech model: "ggml-" + name + ".bin".
pub fn whisper_model_file(model: &str) -> (r: String)
    ensures
        r@ == "ggml-"@ + model@ + ".bin"@,
{
    let mut r = "ggml-".to_owned();
    append_str(&mut r, model);
    append_str(&mut r, ".bin");
    r
}

/// The file of a rewrite model: name + ".gguf".
pub fn refiner_model_file(model: &str) -> (r: String)
    ensures
        r@ == model@ + ".gguf"@,
{
    let mut r = model.to_owned();
    append_str(&mut r, ".gguf");
    r
}

// ---------------------------------------------------------------------------
// Push-to-talk key setting

/// `s` cut at every '+'.
pub open spec fn split_plus(s: Seq<char>) -> Seq<Seq<char>>
    decreases s.len(),
{
    if s.len() == 0 {
        seq![Seq::<char>::empty()]
    } else {
        let r = split_plus(s.drop_last());
        if s.last() == '+' {
            r.push(Seq::<char>::empty())
        } else {
            r.update(r.len() - 1, r.last().push(s.last()))
        }
    }
}

proof fn lemma_split_plus_nonempty(s: Seq<char>)
    ensures
        split_plus(s).len() >= 1,
    decreases s.len(),
{
    if s.len() > 0 {
        lemma_split_plus_nonempty(s.drop_last());
    }
}

/// The key names of a push-to-talk setting such as "Control+Shift+Space":
/// the parts between '+' signs, trimmed.
pub open spec fn hotkey_parts(setting: Seq<char>) -> Seq<Seq<char>> {
    split_plus(setting).map_values(|p: Seq<char>| trim(p))
}

/// Whether a setting names a combination of one to three keys.
pub open spec fn usable_combo(parts: Seq<Seq<char>>) -> bool {
    &&& 1 <= parts.len() <= 3
    &&& forall|i: int| 0 <= i < parts.len() ==> #[trigger] parts[i].len() > 0
}

/// The keys to hold for push-to-talk: those the setting names, or Option
/// (the default) when the setting does not name one to three keys.
pub open spec fn effective_combo(setting: Seq<char>) -> Seq<Seq<char>> {
    if usable_combo(hotkey_parts(setting)) {
        hotkey_parts(setting)
    } else {
        seq!["Option"@]
    }
}

/// Whether the pressed key `key` (a key code name such as "LAlt") counts as
/// the key `part` of a setting: "Option" and "Alt" stand for either Alt or
/// Option key, "Control" and "Ctrl" for either Control key, "Shift" for
/// either Shift key, "Command", "Cmd" and "Meta" for a Command or Meta key;
/// any other name stands for the key of that name.
pub open spec fn key_counts_as(part: Seq<char>, key: Seq<char>) -> bool {
    if part == "Option"@ || part == "Alt"@ {
        key == "LAlt"@ || key == "RAlt"@ || key == "LOption"@ || key == "ROption"@
    } else if part == "Control"@ || part == "Ctrl"@ {
        key == "LControl"@ || key == "RControl"@
    } else if part == "Shift"@ {
        key == "LShift"@ || key == "RShift"@
    } else if part == "Command"@ || part == "Cmd"@ || part == "Meta"@ {
        key == "Command"@ || key == "LMeta"@ || key == "RMeta"@
    } else {
        key == part
    }
}

/// Whether some pressed key counts as `part`.
pub open spec fn key_held(part: Seq<char>, pressed: Seq<Seq<char>>) -> bool {
    exists|j: int| 0 <= j < pressed.len() && key_counts_as(part, #[trigger] pressed[j])
}

/// Whether every key of `combo` is held among the `pressed` keys.
pub open spec fn combo_held(combo: Seq<Seq<char>>, pressed: Seq<Seq<char>>) -> bool {
    forall|i: int| 0 <= i < combo.len() ==> key_held(#[trigger] combo[i], pressed)
}

fn split_plus_chars(v: &Vec<char>) -> (r: Vec<Vec<char>>)
    ensures
        r@.map_values(|x: Vec<char>| x@) == split_plus(v@),
{
    let mut parts: Vec<Vec<char>> = Vec::new();
    let mut cur: Vec<char> = Vec::new();
    let n = v.len();
    let mut i: usize = 0;
    assert(v@.take(0) =~= Seq::<char>::empty());
    assert(parts@.map_values(|x: Vec<char>| x@).push(cur@) =~= seq![Seq::<char>::empty()]);
    while i < n
        invariant
            n == v@.len(),
            i <= n,
            split_plus(v@.take(i as int)) == parts@.map_values(|x: Vec<char>| x@).push(cur@),
        decreases n - i,
    {
        let ghost before = parts@.map_values(|x: Vec<char>| x@);
        assert(v@.take(i + 1).drop_last() =~= v@.take(i as int));
        assert(v@.take(i + 1).last() == v@[i as int]);
        if v[i] == '+' {
            let done = cur;
            parts.push(done);
            cur = Vec::new();
            assert(parts@.map_values(|x: Vec<char>| x@) =~= before.push(done@));
            assert(cur@ =~= Seq::<char>::empty());
        } else {
            let ghost oc = cur@;
            cur.push(v[i]);
            assert(cur@ == oc.push(v@[i as int]));
            assert(before.push(oc).update(
                before.len() as int,
                before.push(oc).last().push(v@[i as int]),
            ) =~= before.push(cur@));
        }
        i += 1;
    }
    assert(v@.take(n as int) =~= v@);
    let ghost before = parts@.map_values(|x: Vec<char>| x@);
    let last = cur;
    parts.push(last);
    assert(parts@.map_values(|x: Vec<char>| x@) =~= before.push(last@));
    parts
}

fn key_counts_as_exec(part: &[char], key: &str) -> (b: bool)
    ensures
        b == key_counts_as(part@, key@),
{
    let k = chars_of(key);
    if chars_equal(part, "Option") || chars_equal(part, "Alt") {
        chars_equal(k.as_slice(), "LAlt") || chars_equal(k.as_slice(), "RAlt") || chars_equal(
            k.as_slice(),
            "LOption",
        ) || chars_equal(k.as_slice(), "ROption")
    } else if chars_equal(part, "Control") || chars_equal(part, "Ctrl") {
        chars_equal(k.as_slice(), "LControl") || chars_equal(k.as_slice(), "RControl")
    } else if chars_equal(part, "Shift") {
        chars_equal(k.as_slice(), "LShift") || chars_equal(k.as_slice(), "RShift")
    } else if chars_equal(part, "Command") || chars_equal(part, "Cmd") || chars_equal(part, "Meta") {
        chars_equal(k.as_slice(), "Command") || chars_equal(k.as_slice(), "LMeta") || chars_equal(
            k.as_slice(),
            "RMeta",
        )
    } else {
        chars_equal(part, key)
    }
}

/// The keys to hold for push-to-talk under the `hotkey` setting.
pub fn hotkey_combo(setting: &str) -> (r: Vec<String>)
    ensures
        r@.map_values(|x: String| x@) == effective_combo(setting@),
{
    let v = chars_of(setting);
    let raw = split_plus_chars(&v);
    let ghost raw_view = raw@.map_values(|x: Vec<char>| x@);
    let ghost parts = hotkey_parts(setting@);
    proof {
        lemma_split_plus_nonempty(setting@);
    }
    let n = raw.len();
    let mut out: Vec<String> = Vec::new();
    let mut usable = n <= 3;
    let mut i: usize = 0;
    while i < n
        invariant
            n == raw@.len(),
            raw_view == raw@.map_values(|x: Vec<char>| x@),
            raw_view == split_plus(setting@),
            parts == hotkey_parts(setting@),
            parts.len() == n,
            i <= n,
            out@.map_values(|x: String| x@) == parts.take(i as int),
            usable == (n <= 3 && forall|k: int| 0 <= k < i ==> #[trigger] parts[k].len() > 0),
        decreases n - i,
    {
        let t = trim_chars(raw[i].as_slice());
        assert(raw_view[i as int] == raw@[i as int]@);
        assert(parts[i as int] == trim(raw_view[i as int]));
        if t.len() == 0 {
            usable = false;
        }
        let ghost before = out@.map_values(|x: String| x@);
        out.push(crate::text::string_of(t.as_slice()));
        assert(out@.map_values(|x: String| x@) =~= before.push(t@));
        assert(parts.take(i + 1) =~= parts.take(i as int).push(parts[i as int]));
        i += 1;
    }
    assert(parts.take(n as int) =~= parts);
    if usable && n >= 1 {
        out
    } else {
        let mut d: Vec<String> = Vec::new();
        d.push("Option".to_owned());
        assert(d@.map_values(|x: String| x@) =~= seq!["Option"@]);
        d
    }
}

/// Whether the push-to-talk combination `combo` is held, given the names of
/// the pressed keys.
pub fn hotkey_held(combo: &Vec<String>, pressed: &Vec<String>) -> (b: bool)
    ensures
        b == combo_held(combo@.map_values(|x: String| x@), pressed@.map_values(|x: String| x@)),
{
    let ghost c = combo@.map_values(|x: String| x@);
    let ghost p = pressed@.map_values(|x: String| x@);
    let n = combo.len();
    let m = pressed.len();
    let mut i: usize = 0;
    while i < n
        invariant
            n == combo@.len(),
            m == pressed@.len(),
            c == combo@.map_values(|x: String| x@),
            p == pressed@.map_values(|x: String| x@),
            i <= n,
            forall|k: int| 0 <= k < i ==> key_held(#[trigger] c[k], p),
        decreases n - i,
    {
        let part = chars_of(combo[i].as_str());
        assert(c[i as int] == combo@[i as int]@);
        let mut found = false;
        let mut j: usize = 0;
        while j < m && !found
            invariant
                m == pressed@.len(),
                p == pressed@.map_values(|x: String| x@),
                c == combo@.map_values(|x: String| x@),
                part@ == c[i as int],
                i < n,
                n == combo@.len(),
                j <= m,
                found ==> exists|jj: int| 0 <= jj < p.len() && key_counts_as(c[i as int], #[trigger] p[jj]),
                !found ==> forall|jj: int| 0 <= jj < j ==> !key_counts_as(c[i as int], #[trigger] p[jj]),
            decreases m - j,
        {
            assert(p[j as int] == pressed@[j as int]@);
            if key_counts_as_exec(part.as_slice(), pressed[j].as_str()) {
                found = true;
                assert(key_counts_as(c[i as int], p[j as int]));
            }
            j += 1;
        }
        if !found {
            assert(!key_held(c[i as int], p));
            return false;
        }
        assert(key_held(c[i as int], p));
        i += 1;
    }
    assert(c.len() == n);
    true
}

proof fn lemma_split_plus_without_plus(s: Seq<char>)
    requires
        forall|i: int| 0 <= i < s.len() ==> s[i] != '+',
    ensures
        split_plus(s) == seq![s],
    decreases s.len(),
{
    if s.len() == 0 {
        assert(s =~= Seq::<char>::empty());
        assert(split_plus(s) =~= seq![s]);
    } else {
        let d = s.drop_last();
        lemma_split_plus_without_plus(d);
        assert(s.last() != '+');
        assert(d.push(s.last()) =~= s);
        assert(seq![d].update(0, d.push(s.last())) =~= seq![s]);
    }
}

/// With the default setting "Option", push-to-talk is held exactly while an
/// Alt or Option key (left or right) is pressed.
pub proof fn law_default_hotkey_is_option(pressed: Seq<Seq<char>>)
    ensures
        effective_combo("Option"@) == seq!["Option"@],
        combo_held(effective_combo("Option"@), pressed) <==> exists|j: int|
            0 <= j < pressed.len() && (#[trigger] pressed[j] == "LAlt"@ || pressed[j] == "RAlt"@
                || pressed[j] == "LOption"@ || pressed[j] == "ROption"@),
{
    reveal_strlit("Option");
    let o = "Option"@;
    assert(o =~= seq!['O', 'p', 't', 'i', 'o', 'n']);
    lemma_split_plus_without_plus(o);
    assert(trim_start(o) == o);
    assert(trim_end(o) == o);
    assert(hotkey_parts(o) =~= seq![o]);
    let c = seq![o];
    if combo_held(c, pressed) {
        assert(key_held(c[0], pressed));
    }
}

// ---------------------------------------------------------------------------
// Laws

/// Undo removes exactly what was pasted: after `text` is pasted (the
/// clipboard holds `pasted(text)`, which is also remembered), saying an
/// undo phrase with dictation on asks for as many backspaces as the
/// clipboard held characters.
pub proof fn law_undo_deletes_the_paste(cfg: Config, text: Seq<char>, utterance: Seq<char>, model_loaded: bool)
    requires
        cfg.dictation_enabled,
        trim(utterance).len() > 0,
        action_named(command_text(trim(utterance))) == Action::Undo,
    ensures
        plan_for(cfg, utterance, pasted(text), model_loaded)
            == (PlanView::DeleteLast { count: pasted(text).len() }),
{
    reveal_strlit(" ");
}

/// With dictation on, actions come before anything else: "select all"
/// selects all, and an undo phrase with nothing pasted before deletes
/// nothing, whatever the snippets, the refiner mode or the model.
pub proof fn law_actions_come_first(cfg: Config, raw: Seq<char>, last: Seq<char>, model_loaded: bool)
    requires
        cfg.dictation_enabled,
        trim(raw).len() > 0,
    ensures
        action_named(command_text(trim(raw))) == Action::SelectAll ==> plan_for(
            cfg,
            raw,
            last,
            model_loaded,
        ) == PlanView::SelectAll,
        action_named(command_text(trim(raw))) == Action::Undo && last.len() == 0 ==> plan_for(
            cfg,
            raw,
            last,
            model_loaded,
        ) == PlanView::NothingToDelete,
        action_named(command_text(trim(raw))) == Action::Undo && last.len() > 0 ==> plan_for(
            cfg,
            raw,
            last,
            model_loaded,
        ) == (PlanView::DeleteLast { count: last.len() }),
{
}

/// With dictation off, no utterance triggers an action, and the text that
/// is pasted is never rewritten by dictation commands.
pub proof fn law_dictation_off(cfg: Config, raw: Seq<char>, last: Seq<char>, model_loaded: bool, out: Seq<char>)
    requires
        !cfg.dictation_enabled,
    ensures
        !(plan_for(cfg, raw, last, model_loaded) is DeleteLast),
        !(plan_for(cfg, raw, last, model_loaded) is NothingToDelete),
        !(plan_for(cfg, raw, last, model_loaded) is SelectAll),
        final_text(cfg, out) == out,
{
}

/// Snippets are matched on the unrefined transcript before any refinement:
/// whatever the refiner mode and whether a model is loaded, an utterance
/// that names no action and triggers a snippet pastes its replacement.
pub proof fn law_snippet_before_refining(cfg: Config, raw: Seq<char>, last: Seq<char>, model_loaded: bool)
    requires
        trim(raw).len() > 0,
        !cfg.dictation_enabled || action_named(command_text(trim(raw))) == Action::NoAction,
        first_snippet(snippet_key(trim(raw)), cfg.snippets@) is Some,
    ensures
        plan_for(cfg, raw, last, model_loaded) == (PlanView::Snippet {
            text: first_snippet(snippet_key(trim(raw)), cfg.snippets@)->0,
        }),
{
}

/// Dictation commands are applied after the model's rewrite, never before:
/// the model is asked about the text without commands applied, and the
/// pasted text is the commands applied to what the model returned.
pub proof fn law_commands_after_rewrite(cfg: Config, raw: Seq<char>, last: Seq<char>, reply: Seq<char>)
    requires
        plan_for(cfg, raw, last, true) is AskModel,
        reply.len() > 0,
    ensures
        plan_for(cfg, raw, last, true) == (PlanView::AskModel {
            cleaned: rules_only(trim(raw))->0,
        }),
        rewrite_result(cfg, rules_only(trim(raw))->0, Some(reply)) == final_text(cfg, reply),
{
}

/// In rewrite mode with the model loaded, a transcript that names no action
/// and triggers no snippet is skipped exactly when a rewrite by the model
/// would give nothing, whatever the model would answer: the model is asked
/// only when words remain once the fillers are gone, and it is asked about
/// the rule-cleaned text. Once it answers, what is pasted is the model
/// rewrite of the transcript, with the commands applied when dictation is on.
pub proof fn law_model_asked_only_when_words_remain(
    cfg: Config,
    raw: Seq<char>,
    last: Seq<char>,
    reply: Option<Seq<char>>,
)
    requires
        cfg.refiner_mode@ == "rewrite"@,
        trim(raw).len() > 0,
        !cfg.dictation_enabled || action_named(command_text(trim(raw))) == Action::NoAction,
        first_snippet(snippet_key(trim(raw)), cfg.snippets@) is None,
    ensures
        (plan_for(cfg, raw, last, true) == PlanView::SkipFiller) <==> model_rewrite(
            trim(raw),
            reply,
        ) is None,
        model_rewrite(trim(raw), reply) is Some ==> plan_for(cfg, raw, last, true) == (
        PlanView::AskModel { cleaned: rules_only(trim(raw))->0 }),
        model_rewrite(trim(raw), reply) is Some ==> rewrite_result(
            cfg,
            rules_only(trim(raw))->0,
            reply,
        ) == final_text(cfg, model_rewrite(trim(raw), reply)->0),
{
    reveal_strlit("rewrite");
    reveal_strlit("clean");
    assert(cfg.refiner_mode@ != "clean"@) by {
        assert(cfg.refiner_mode@[0] == 'r');
    }
}

/// With dictation on, what is pasted for a transcript that names no action
/// and triggers no snippet is the dictation commands applied to the
/// refined text, whatever the refiner mode: to the rule-cleaned text in
/// clean mode and in rewrite mode without a model, to the transcript in off
/// mode, and to the model's rewrite once it has answered. With dictation
/// off, the refined text is pasted as it is.
pub proof fn law_commands_apply_to_the_refined_text(
    cfg: Config,
    raw: Seq<char>,
    last: Seq<char>,
    model_loaded: bool,
    cleaned: Seq<char>,
    reply: Option<Seq<char>>,
)
    requires
        trim(raw).len() > 0,
        !cfg.dictation_enabled || action_named(command_text(trim(raw))) == Action::NoAction,
        first_snippet(snippet_key(trim(raw)), cfg.snippets@) is None,
    ensures
        (cfg.refiner_mode@ == "clean"@ || (cfg.refiner_mode@ == "rewrite"@ && !model_loaded))
            && rules_only(trim(raw)) is Some ==> plan_for(cfg, raw, last, model_loaded) == (
        PlanView::Paste {
            text: if cfg.dictation_enabled {
                with_commands(rules_only(trim(raw))->0)
            } else {
                rules_only(trim(raw))->0
            },
        }),
        cfg.refiner_mode@ != "clean"@ && cfg.refiner_mode@ != "rewrite"@ ==> plan_for(
            cfg,
            raw,
            last,
            model_loaded,
        ) == (PlanView::Paste {
            text: if cfg.dictation_enabled {
                with_commands(trim(raw))
            } else {
                trim(raw)
            },
        }),
        cfg.dictation_enabled ==> rewrite_result(cfg, cleaned, reply) == with_commands(
            refined_with(cleaned, reply),
        ),
        !cfg.dictation_enabled ==> rewrite_result(cfg, cleaned, reply) == refined_with(
            cleaned,
            reply,
        ),
{
}

/// Joining the dictionary words: none give the empty text, one word gives
/// itself, a word added after a non-empty list comes after ", ", and two
/// non-empty lists join with ", " between them, so every word appears, in
/// order.
pub proof fn law_dictionary_words_joined_in_order(
    w: Seq<Seq<char>>,
    v: Seq<Seq<char>>,
    x: Seq<char>,
)
    ensures
        joined(Seq::empty()) == Seq::<char>::empty(),
        joined(seq![x]) == x,
        w.len() > 0 ==> joined(w.push(x)) == joined(w) + ", "@ + x,
        w.len() > 0 && v.len() > 0 ==> joined(w + v) == joined(w) + ", "@ + joined(v),
        w.len() > 0 ==> dictionary_prompt(w) == Some(
            "The following words may appear: "@ + joined(w) + "."@,
        ),
    decreases v.len(),
{
    assert(w.push(x).drop_last() =~= w);
    if w.len() > 0 && v.len() > 0 {
        if v.len() == 1 {
            assert(w + v =~= w.push(v[0]));
            assert((w + v).drop_last() =~= w);
            assert(joined(v) == v[0]);
        } else {
            law_dictionary_words_joined_in_order(w, v.drop_last(), x);
            assert((w + v).drop_last() =~= w + v.drop_last());
            assert((w + v).last() == v.last());
            assert(joined(w + v) == joined(w + v.drop_last()) + ", "@ + v.last());
            assert(joined(v) == joined(v.drop_last()) + ", "@ + v.last());
            assert(joined(w) + ", "@ + joined(v.drop_last()) + ", "@ + v.last() =~= joined(w)
                + ", "@ + (joined(v.drop_last()) + ", "@ + v.last()));
        }
    }
}

/// Saving unchanged settings reloads nothing.
pub proof fn law_unchanged_settings_reload_nothing(cfg: Config)
    ensures
        refiner_change(cfg, cfg) == RefinerChange::Keep,
{
}

/// The events of a run of key polls that starts from `recording`.
pub open spec fn hotkey_events(recording: bool, polls: Seq<bool>) -> Seq<HotkeyEvent>
    decreases polls.len(),
{
    if polls.len() == 0 {
        Seq::empty()
    } else {
        let before = if polls.len() > 1 { polls[polls.len() - 2] } else { recording };
        hotkey_events(recording, polls.drop_last()).push(hotkey_event(before, polls.last()))
    }
}

/// How many times `e` occurs in `es`.
pub open spec fn occurrences(es: Seq<HotkeyEvent>, e: HotkeyEvent) -> nat
    decreases es.len(),
{
    if es.len() == 0 {
        0
    } else if es.last() == e {
        occurrences(es.drop_last(), e) + 1
    } else {
        occurrences(es.drop_last(), e)
    }
}

/// Every recording that is started is stopped once the key is released:
/// over any run of polls from the idle state, the starts outnumber the
/// stops by one exactly when the key is still held at the last poll.
pub proof fn law_recordings_start_and_stop_in_turn(polls: Seq<bool>)
    ensures
        occurrences(hotkey_events(false, polls), HotkeyEvent::StartRecording) == occurrences(
            hotkey_events(false, polls),
            HotkeyEvent::StopRecording,
        ) + (if polls.len() > 0 && polls.last() { 1nat } else { 0nat }),
    decreases polls.len(),
{
    if polls.len() > 0 {
        let p = polls.drop_last();
        law_recordings_start_and_stop_in_turn(p);
        let es = hotkey_events(false, polls);
        let before = if polls.len() > 1 { polls[polls.len() - 2] } else { false };
        assert(es == hotkey_events(false, p).push(hotkey_event(before, polls.last())));
        assert(es.drop_last() =~= hotkey_events(false, p));
        assert(es.last() == hotkey_event(before, polls.last()));
        if p.len() > 0 {
            assert(p.last() == polls[polls.len() - 2]);
        }
    }
}

} // verus!
