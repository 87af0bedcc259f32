use speakeasy::config::{Config, Snippet};
use speakeasy::pipeline::{
    backspace_script, command_key_script, finish_rewrite, hotkey_step, initial_prompt,
    loaded_status, model_status, pasted_text, plan_transcript, refiner_model_file, reload_plan,
    whisper_model_file, HotkeyEvent, Plan, RefinerChange,
};
use speakeasy::text::count_words;

fn config(mode: &str, dictation: bool) -> Config {
    let mut c = Config::default();
    c.refiner_mode = mode.to_string();
    c.dictation_enabled = dictation;
    c
}

fn paste_of(p: Plan) -> String {
    match p {
        Plan::Paste { text } => text,
        other => panic!("expected a paste, got {:?}", other),
    }
}

#[test]
fn silence_does_nothing() {
    assert!(matches!(plan_transcript(&config("off", true), "   ", "", false), Plan::Nothing));
}

#[test]
fn off_mode_pastes_the_raw_transcript() {
    let p = plan_transcript(&config("off", false), "  um so like hi  ", "", false);
    assert_eq!(paste_of(p), "um so like hi");
}

#[test]
fn off_mode_still_applies_dictation_commands() {
    let p = plan_transcript(&config("off", true), "hi new line there", "", false);
    assert_eq!(paste_of(p), "hi\nthere");
}

#[test]
fn clean_mode_removes_fillers() {
    let p = plan_transcript(&config("clean", true), "um so like I was testing this", "", false);
    assert_eq!(paste_of(p), "So I was testing this");
}

#[test]
fn clean_mode_skips_pure_filler() {
    let p = plan_transcript(&config("clean", true), "um uh", "", false);
    assert!(matches!(p, Plan::SkipFiller));
}

#[test]
fn rewrite_mode_without_model_uses_rules() {
    let p = plan_transcript(&config("rewrite", true), "um hello question mark", "", false);
    assert_eq!(paste_of(p), "Hello?");
}

#[test]
fn rewrite_mode_asks_the_model_about_cleaned_text() {
    let p = plan_transcript(&config("rewrite", true), "um hello question mark", "", true);
    match p {
        Plan::AskModel { cleaned } => assert_eq!(cleaned, "Hello question mark"),
        other => panic!("expected a model request, got {:?}", other),
    }
}

#[test]
fn commands_apply_after_the_model() {
    let c = config("rewrite", true);
    let p = finish_rewrite(&c, "Hello question mark".to_string(), Some("Hello question mark".to_string()));
    assert_eq!(paste_of(p), "Hello?");
    let p = finish_rewrite(&c, "Fallback new line".to_string(), None);
    assert_eq!(paste_of(p), "Fallback");
}

#[test]
fn finish_without_dictation_keeps_reply() {
    let c = config("rewrite", false);
    let p = finish_rewrite(&c, "x".to_string(), Some("Keep new line".to_string()));
    assert_eq!(paste_of(p), "Keep new line");
}

#[test]
fn undo_deletes_the_last_paste() {
    let last = pasted_text("Hello there");
    assert_eq!(last, "Hello there ");
    let p = plan_transcript(&config("clean", true), "Delete that.", &last, false);
    match p {
        Plan::DeleteLast { count } => assert_eq!(count, last.chars().count()),
        other => panic!("expected an undo, got {:?}", other),
    }
}

#[test]
fn undo_counts_characters_not_bytes() {
    let last = pasted_text("été");
    match plan_transcript(&config("off", true), "undo", &last, false) {
        Plan::DeleteLast { count } => assert_eq!(count, 4),
        other => panic!("expected an undo, got {:?}", other),
    }
}

#[test]
fn undo_with_nothing_pasted() {
    let p = plan_transcript(&config("clean", true), "scratch that", "", false);
    assert!(matches!(p, Plan::NothingToDelete));
}

#[test]
fn select_all_is_planned() {
    let p = plan_transcript(&config("rewrite", true), "Select all.", "", true);
    assert!(matches!(p, Plan::SelectAll));
}

#[test]
fn actions_need_dictation() {
    let p = plan_transcript(&config("off", false), "delete that", "x ", false);
    assert_eq!(paste_of(p), "delete that");
}

#[test]
fn snippets_come_before_refining() {
    let mut c = config("rewrite", true);
    c.snippets.push(Snippet { trigger: "my email".to_string(), replacement: "you@example.com".to_string() });
    match plan_transcript(&c, "My email.", "", true) {
        Plan::Snippet { text } => assert_eq!(text, "you@example.com"),
        other => panic!("expected a snippet, got {:?}", other),
    }
}

#[test]
fn clipboard_text_has_a_trailing_space() {
    assert_eq!(pasted_text("abc"), "abc ");
    assert_eq!(pasted_text(""), " ");
}

#[test]
fn words_are_counted() {
    assert_eq!(count_words("  hello   world \n foo "), 3);
    assert_eq!(count_words(""), 0);
    assert_eq!(count_words(" \t "), 0);
    assert_eq!(count_words("one"), 1);
}

#[test]
fn unchanged_settings_reload_nothing() {
    let c = Config::default();
    let r = reload_plan(&c, &c.clone());
    assert!(!r.reload_whisper);
    assert_eq!(r.refiner, RefinerChange::Keep);
}

#[test]
fn changed_models_reload() {
    let old = Config::default();
    let mut new = old.clone();
    new.whisper_model = "small.en".to_string();
    new.refiner_mode = "clean".to_string();
    let r = reload_plan(&old, &new);
    assert!(r.reload_whisper);
    assert_eq!(r.refiner, RefinerChange::Unload);
    let mut back = new.clone();
    back.refiner_mode = "rewrite".to_string();
    assert_eq!(reload_plan(&new, &back).refiner, RefinerChange::Load);
    let mut other_model = old.clone();
    other_model.refiner_model = "other".to_string();
    assert_eq!(reload_plan(&old, &other_model).refiner, RefinerChange::Load);
}

#[test]
fn hotkey_press_and_release() {
    assert_eq!(hotkey_step(false, true), (true, HotkeyEvent::StartRecording));
    assert_eq!(hotkey_step(true, true), (true, HotkeyEvent::Idle));
    assert_eq!(hotkey_step(true, false), (false, HotkeyEvent::StopRecording));
    assert_eq!(hotkey_step(false, false), (false, HotkeyEvent::Idle));
}

#[test]
fn hotkey_runs_alternate() {
    let polls = [false, true, true, false, false, true, false, true];
    let mut rec = false;
    let mut starts = 0;
    let mut stops = 0;
    for held in polls {
        let (next, ev) = hotkey_step(rec, held);
        rec = next;
        match ev {
            HotkeyEvent::StartRecording => starts += 1,
            HotkeyEvent::StopRecording => stops += 1,
            HotkeyEvent::Idle => {}
        }
        assert!(starts == stops || starts == stops + 1);
    }
    assert_eq!(starts, stops + 1);
}

#[test]
fn status_panel() {
    let mut c = Config::default();
    let s = model_status(&c, true, false);
    assert_eq!(
        (s.whisper.as_str(), s.whisper_status.as_str(), s.refiner.as_str(), s.refiner_status.as_str()),
        ("base.en", "Loaded", "qwen2.5-1.5b-instruct-q4_k_m", "Loading...")
    );
    assert_eq!(model_status(&c, false, true).refiner_status, "Loaded (LLM)");
    assert_eq!(model_status(&c, false, true).whisper_status, "Loading...");
    c.use_refiner = false;
    let s = model_status(&c, true, false);
    assert_eq!((s.refiner.as_str(), s.refiner_status.as_str()), ("Disabled", "Off"));
}

#[test]
fn loaded_announcement() {
    let mut c = Config::default();
    assert_eq!(loaded_status(&c, false).refiner_status, "Rule-based");
    assert_eq!(loaded_status(&c, true).refiner_status, "Loaded");
    assert_eq!(loaded_status(&c, true).whisper_status, "Loaded");
    c.use_refiner = false;
    assert_eq!(loaded_status(&c, false).refiner_status, "Off");
}

#[test]
fn dictionary_prompt() {
    assert_eq!(initial_prompt(&vec![]), None);
    assert_eq!(
        initial_prompt(&vec!["Verus".to_string(), "Tauri".to_string()]),
        Some("The following words may appear: Verus, Tauri.".to_string())
    );
    assert_eq!(
        initial_prompt(&vec!["SpeakEasy".to_string()]),
        Some("The following words may appear: SpeakEasy.".to_string())
    );
}

#[test]
fn key_scripts() {
    assert_eq!(
        backspace_script(12),
        "tell application \"System Events\" to repeat 12 times\nkey code 51\nend repeat"
    );
    assert_eq!(
        command_key_script("a"),
        "tell application \"System Events\" to keystroke \"a\" using command down"
    );
}

#[test]
fn model_files() {
    assert_eq!(whisper_model_file("base.en"), "ggml-base.en.bin");
    assert_eq!(refiner_model_file("qwen2.5-1.5b-instruct-q4_k_m"), "qwen2.5-1.5b-instruct-q4_k_m.gguf");
}

fn names(v: &[&str]) -> Vec<String> {
    v.iter().map(|s| s.to_string()).collect()
}

#[test]
fn default_hotkey_is_either_option_key() {
    let combo = speakeasy::pipeline::hotkey_combo("Option");
    assert_eq!(combo, names(&["Option"]));
    for key in ["LAlt", "RAlt", "LOption", "ROption"] {
        assert!(speakeasy::pipeline::hotkey_held(&combo, &names(&[key])));
    }
    assert!(!speakeasy::pipeline::hotkey_held(&combo, &names(&["LShift", "Space"])));
    assert!(!speakeasy::pipeline::hotkey_held(&combo, &names(&[])));
}

#[test]
fn hotkey_combinations_need_every_key() {
    let combo = speakeasy::pipeline::hotkey_combo("Ctrl + Shift+Space");
    assert_eq!(combo, names(&["Ctrl", "Shift", "Space"]));
    assert!(speakeasy::pipeline::hotkey_held(&combo, &names(&["RControl", "LShift", "Space", "A"])));
    assert!(!speakeasy::pipeline::hotkey_held(&combo, &names(&["RControl", "Space"])));
    let cmd = speakeasy::pipeline::hotkey_combo("Cmd+F5");
    assert!(speakeasy::pipeline::hotkey_held(&cmd, &names(&["F5", "Command"])));
    assert!(speakeasy::pipeline::hotkey_held(&cmd, &names(&["LMeta", "F5"])));
}

#[test]
fn unusable_hotkey_settings_fall_back_to_option() {
    for setting in ["", "A+B+C+D", "Ctrl+", " + "] {
        assert_eq!(speakeasy::pipeline::hotkey_combo(setting), names(&["Option"]));
    }
}

#[test]
fn loaded_model_is_not_asked_about_pure_filler() {
    let p = plan_transcript(&config("rewrite", true), "um, uh...", "", true);
    assert!(matches!(p, Plan::SkipFiller));
}
