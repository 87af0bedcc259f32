use speakeasy::config::{
    chrono_today, day_label_of, default_dictation, default_hotkey, default_lang,
    default_max_record, default_refiner, default_refiner_mode, default_theme, default_tone,
    default_whisper, Config, Snippet, Stats, DEFAULT_VAD_THRESHOLD_BITS,
};

fn snippet(trigger: &str, replacement: &str) -> Snippet {
    Snippet { trigger: trigger.to_string(), replacement: replacement.to_string() }
}

#[test]
fn defaults_match_the_documented_settings() {
    let c = Config::default();
    assert_eq!(c.whisper_model, "base.en");
    assert_eq!(c.refiner_model, "qwen2.5-1.5b-instruct-q4_k_m");
    assert_eq!(c.language, "en");
    assert_eq!(f64::from_bits(c.vad_threshold_bits), 0.003);
    assert_eq!(c.max_record_seconds, 30);
    assert!(c.use_refiner);
    assert_eq!(c.refiner_mode, "rewrite");
    assert_eq!(c.tone, "normal");
    assert_eq!(c.hotkey, "Option");
    assert_eq!(c.theme, "dusk-sprinter");
    assert!(!c.first_run_complete);
    assert!(c.dictation_enabled);
    assert!(c.dictionary.is_empty());
    assert!(c.snippets.is_empty());
    assert_eq!(c.stats.words_today, 0);
    assert_eq!(c.stats.transcriptions_today, 0);
    assert_eq!(c.stats.date, "");
}

#[test]
fn default_functions() {
    assert_eq!(default_whisper(), "base.en");
    assert_eq!(default_refiner(), "qwen2.5-1.5b-instruct-q4_k_m");
    assert_eq!(default_lang(), "en");
    assert_eq!(default_max_record(), 30);
    assert_eq!(default_refiner_mode(), "rewrite");
    assert_eq!(default_tone(), "normal");
    assert_eq!(default_hotkey(), "Option");
    assert_eq!(default_theme(), "dusk-sprinter");
    assert!(default_dictation());
    assert_eq!(f64::from_bits(DEFAULT_VAD_THRESHOLD_BITS), 0.003);
}

#[test]
fn stats_default_is_empty() {
    let s = Stats::default();
    assert_eq!((s.words_today, s.transcriptions_today, s.date.as_str()), (0, 0, ""));
}

#[test]
fn snippet_matches_my_email() {
    let mut c = Config::default();
    c.snippets.push(snippet("my email", "you@example.com"));
    assert_eq!(c.match_snippet("my email"), Some("you@example.com".to_string()));
}

#[test]
fn snippet_ignores_case_punctuation_and_spaces() {
    let mut c = Config::default();
    c.snippets.push(snippet("My Email", "you@example.com"));
    assert_eq!(c.match_snippet("  my email.  "), Some("you@example.com".to_string()));
    assert_eq!(c.match_snippet("MY, EMAIL"), Some("you@example.com".to_string()));
}

#[test]
fn snippet_needs_the_whole_utterance() {
    let mut c = Config::default();
    c.snippets.push(snippet("my email", "you@example.com"));
    assert_eq!(c.match_snippet("send my email"), None);
    assert_eq!(Config::default().match_snippet("my email"), None);
}

#[test]
fn first_matching_snippet_wins() {
    let mut c = Config::default();
    c.snippets.push(snippet("sig", "first"));
    c.snippets.push(snippet("SIG", "second"));
    assert_eq!(c.match_snippet("sig"), Some("first".to_string()));
}

#[test]
fn day_labels_count_whole_days() {
    assert_eq!(day_label_of(0), "day-0");
    assert_eq!(day_label_of(86399), "day-0");
    assert_eq!(day_label_of(86400), "day-1");
    assert_eq!(day_label_of(1_700_000_000), "day-19675");
}

#[test]
fn same_day_same_label_other_day_other_label() {
    assert_eq!(day_label_of(86400 * 20000 + 5), day_label_of(86400 * 20000 + 80000));
    assert_ne!(day_label_of(86400 * 20000 + 5), day_label_of(86400 * 20001 + 5));
}

#[test]
fn today_is_a_day_label() {
    let today = chrono_today().unwrap();
    assert!(today.starts_with("day-"));
    assert!(today["day-".len()..].chars().all(|c| c.is_ascii_digit()));
}

#[test]
fn recording_on_the_same_day_accumulates() {
    let mut s = Stats::default();
    s.record_on(3, "day-10");
    s.record_on(4, "day-10");
    assert_eq!((s.words_today, s.transcriptions_today, s.date.as_str()), (7, 2, "day-10"));
}

#[test]
fn recording_on_a_new_day_starts_afresh() {
    let mut s = Stats { words_today: 50, transcriptions_today: 9, date: "day-9".to_string() };
    s.record_on(4, "day-10");
    assert_eq!((s.words_today, s.transcriptions_today, s.date.as_str()), (4, 1, "day-10"));
}

#[test]
fn recording_now_uses_today() {
    let mut s = Stats::default();
    s.record(5);
    assert_eq!(s.words_today, 5);
    assert_eq!(s.transcriptions_today, 1);
    assert_eq!(s.date, chrono_today().unwrap());
    s.record(2);
    assert_eq!(s.words_today, 7);
    assert_eq!(s.transcriptions_today, 2);
}

#[test]
fn full_counters_of_the_same_day_are_left_alone() {
    let today = chrono_today().unwrap();
    let mut s = Stats { words_today: u32::MAX, transcriptions_today: 5, date: today.clone() };
    assert!(!s.can_record_on(1, &today));
    s.record(1);
    assert_eq!((s.words_today, s.transcriptions_today, s.date.as_str()), (u32::MAX, 5, today.as_str()));
}

#[test]
fn full_counters_of_another_day_start_afresh() {
    let today = chrono_today().unwrap();
    let mut s = Stats { words_today: u32::MAX, transcriptions_today: u32::MAX, date: "day-0".to_string() };
    assert!(s.can_record_on(3, &today));
    s.record(3);
    assert_eq!((s.words_today, s.transcriptions_today, s.date.as_str()), (3, 1, today.as_str()));
}
