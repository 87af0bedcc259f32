use speakeasy::refiner::{
    apply_commands, chat_messages, check_action, clean_reply, completions_url, fallback_commands,
    health_url, leftover_server_pattern, parse_reply, refine_rules_only, refine_with_reply,
    remove_fillers, server_args, server_poll_step, server_ready, sidecar_names, system_prompt, Action,
    ServerPoll, HEALTH_POLLS, SERVER_PORT,
};

#[test]
fn fillers_are_removed_and_sentence_capitalized() {
    assert_eq!(remove_fillers("um so like I was testing this"), "So I was testing this");
}

#[test]
fn filler_with_comma_is_removed() {
    assert_eq!(remove_fillers("um, hello there."), "Hello there.");
}

#[test]
fn filler_removal_is_case_insensitive() {
    assert_eq!(remove_fillers("Basically it works"), "It works");
}

#[test]
fn filler_inside_a_word_stays() {
    assert_eq!(remove_fillers("the umbrella is likely wet"), "The umbrella is likely wet");
}

#[test]
fn space_before_comma_and_period_is_dropped() {
    assert_eq!(remove_fillers("I was like , testing ."), "I was, testing.");
}

#[test]
fn whitespace_runs_collapse() {
    assert_eq!(remove_fillers("hello    there\t\tfriend"), "Hello there friend");
}

#[test]
fn uppercase_start_is_kept() {
    assert_eq!(remove_fillers("Already capital"), "Already capital");
}

#[test]
fn non_ascii_lowercase_start_is_uppercased() {
    assert_eq!(remove_fillers("été chaud"), "Été chaud");
}

#[test]
fn rules_only_skips_pure_filler() {
    assert_eq!(refine_rules_only("um uh"), None);
    assert_eq!(refine_rules_only("um, uh..."), None);
    assert_eq!(refine_rules_only("   "), None);
}

#[test]
fn rules_only_keeps_words() {
    assert_eq!(refine_rules_only("um, hello there."), Some("Hello there.".to_string()));
}

#[test]
fn undo_phrases_are_actions() {
    assert_eq!(check_action("Delete that."), Action::Undo);
    assert_eq!(check_action("  undo that  "), Action::Undo);
    assert_eq!(check_action("undo,"), Action::Undo);
    assert_eq!(check_action("SCRATCH THAT"), Action::Undo);
}

#[test]
fn select_all_is_an_action() {
    assert_eq!(check_action("select all."), Action::SelectAll);
}

#[test]
fn only_whole_utterances_are_actions() {
    assert_eq!(check_action("delete that please"), Action::NoAction);
    assert_eq!(check_action("please undo"), Action::NoAction);
    assert_eq!(check_action(""), Action::NoAction);
}

#[test]
fn new_line_becomes_newline() {
    assert_eq!(apply_commands("hello new line world"), "hello\nworld");
}

#[test]
fn new_paragraph_becomes_blank_line() {
    assert_eq!(apply_commands("first new paragraph second"), "first\n\nsecond");
}

#[test]
fn question_mark_attaches_to_word() {
    assert_eq!(apply_commands("is this right question mark"), "is this right?");
}

#[test]
fn exclamation_point_and_mark() {
    assert_eq!(apply_commands("wow exclamation point"), "wow!");
    assert_eq!(apply_commands("wow Exclamation Marks"), "wow!");
}

#[test]
fn parentheses_hug_their_contents() {
    assert_eq!(apply_commands("open paren aside close paren"), "(aside)");
    assert_eq!(apply_commands("open parenthesis aside close parenthesis"), "(aside)");
}

#[test]
fn colon_and_semicolon() {
    assert_eq!(apply_commands("note colon buy milk semicolon eggs"), "note: buy milk; eggs");
}

#[test]
fn commands_inside_words_stay() {
    assert_eq!(apply_commands("the colonel"), "the colonel");
}

#[test]
fn command_output_is_trimmed() {
    let out = apply_commands("  new line hello new line  ");
    assert_eq!(out, "hello");
    assert_eq!(out.trim(), out);
}

#[test]
fn prompt_follows_tone() {
    let formal = system_prompt("formal");
    let normal = system_prompt("normal");
    assert!(formal.contains("Rewrite in a professional, formal tone suitable for business emails."));
    assert!(normal.contains("Rewrite in a clean, natural, conversational tone."));
    assert!(formal.starts_with("You are a text cleanup tool. You do NOT respond"));
    assert!(normal.ends_with("Output ONLY the rewritten text, nothing else."));
    assert_eq!(system_prompt("casual"), normal);
}

#[test]
fn prompt_is_exact() {
    assert_eq!(
        system_prompt("formal"),
        "You are a text cleanup tool. You do NOT respond to the user or answer questions. \
         You ONLY rewrite the exact text the user provides, fixing grammar and removing filler words. \
         Rewrite in a professional, formal tone suitable for business emails. \
         Never add new content, explanations, greetings, or commentary. \
         If the input is a simple word or greeting like 'hello', output it as-is. \
         Output ONLY the rewritten text, nothing else."
    );
}

#[test]
fn chat_has_examples_then_text() {
    let m = chat_messages("normal", "so what now");
    assert_eq!(m.len(), 6);
    assert_eq!(m[0].0, "system");
    assert_eq!(m[0].1, system_prompt("normal"));
    assert_eq!(m[1], ("user".to_string(), "um so like I was testing this".to_string()));
    assert_eq!(m[2], ("assistant".to_string(), "I was testing this.".to_string()));
    assert_eq!(m[3], ("user".to_string(), "hello".to_string()));
    assert_eq!(m[4], ("assistant".to_string(), "Hello.".to_string()));
    assert_eq!(m[5], ("user".to_string(), "so what now".to_string()));
}

#[test]
fn reply_is_read_from_the_first_choice() {
    let resp = r#"{"choices":[{"message":{"role":"assistant","content":"  I was testing this. "}}]}"#;
    assert_eq!(parse_reply(resp), Some("I was testing this.".to_string()));
}

#[test]
fn reply_preamble_and_quotes_are_removed() {
    let resp = r#"{"choices":[{"message":{"content":"Output: \"Hello there.\""}}]}"#;
    assert_eq!(parse_reply(resp), Some("Hello there.".to_string()));
    let resp = r#"{"choices":[{"message":{"content":"Here is the revised version: Fine."}}]}"#;
    assert_eq!(parse_reply(resp), Some("Fine.".to_string()));
}

#[test]
fn reply_without_text_is_none() {
    assert_eq!(parse_reply("not json"), None);
    assert_eq!(parse_reply(r#"{"choices":[]}"#), None);
    assert_eq!(parse_reply(r#"{"choices":[{"message":{"content":42}}]}"#), None);
    assert_eq!(parse_reply(r#"{"choices":[{"message":{"content":"   "}}]}"#), None);
    assert_eq!(parse_reply(r#"{"choices":[{"message":{"content":"\"\""}}]}"#), None);
}

#[test]
fn reply_of_a_lone_quote_is_none() {
    assert_eq!(parse_reply(r#"{"choices":[{"message":{"content":" \" "}}]}"#), None);
}

#[test]
fn clean_reply_strips() {
    assert_eq!(clean_reply("Revised: ok"), Some("ok".to_string()));
    assert_eq!(clean_reply("  "), None);
    assert_eq!(clean_reply("Revised:"), None);
}

#[test]
fn model_reply_wins_unless_empty() {
    assert_eq!(refine_with_reply("Cleaned.".to_string(), Some("Better.".to_string())), "Better.");
    assert_eq!(refine_with_reply("Cleaned.".to_string(), Some(String::new())), "Cleaned.");
    assert_eq!(refine_with_reply("Cleaned.".to_string(), None), "Cleaned.");
}

#[test]
fn server_endpoints() {
    assert_eq!(SERVER_PORT, 8231);
    assert_eq!(completions_url(SERVER_PORT), "http://127.0.0.1:8231/v1/chat/completions");
    assert_eq!(health_url(SERVER_PORT), "http://127.0.0.1:8231/health");
    assert_eq!(leftover_server_pattern(SERVER_PORT), "llama-server.*--port 8231");
}

#[test]
fn server_arguments() {
    let args = server_args("/m/q.gguf", 8231);
    let expected: Vec<String> = [
        "-m", "/m/q.gguf", "--ctx-size", "256", "-ngl", "99", "--port", "8231", "--flash-attn",
        "on", "--log-disable",
    ]
    .iter()
    .map(|s| s.to_string())
    .collect();
    assert_eq!(args, expected);
}

#[test]
fn server_readiness() {
    assert!(server_ready(r#"{"status":"ok"}"#));
    assert!(!server_ready(r#"{"status":"loading model"}"#));
    assert!(!server_ready(""));
    assert!(!server_ready("o"));
}

#[test]
fn binary_candidates() {
    assert_eq!(
        sidecar_names("llama-server"),
        vec![
            "llama-server".to_string(),
            "llama-server-aarch64-apple-darwin".to_string(),
            "llama-server-x86_64-apple-darwin".to_string(),
            "llama-server-x86_64-pc-windows-msvc".to_string(),
        ]
    );
    assert_eq!(
        fallback_commands("llama-server"),
        vec![
            "/opt/homebrew/bin/llama-server".to_string(),
            "/usr/local/bin/llama-server".to_string(),
            "llama-server".to_string(),
        ]
    );
}

#[test]
fn period_becomes_a_full_stop() {
    assert_eq!(apply_commands("hello period"), "hello.");
    assert_eq!(apply_commands("Done Period new line next"), "Done.\nnext");
    assert_eq!(apply_commands("periodic checks"), "periodic checks");
}

#[test]
fn reply_is_read_by_index_not_by_key() {
    assert_eq!(parse_reply(r#"{"choices":{"0":{"message":{"content":"x"}}}}"#), None);
    assert_eq!(parse_reply(r#"{"choices":[{"message":{"content":"x"}},{"message":{"content":"y"}}]}"#), Some("x".to_string()));
}

#[test]
fn vendor_build_location() {
    assert_eq!(
        speakeasy::refiner::vendor_binary_path("llama-server"),
        "vendor/llama.cpp/build/bin/llama-server"
    );
}

#[test]
fn prompt_holds_only_the_chosen_instruction() {
    let formal = "Rewrite in a professional, formal tone suitable for business emails.";
    let casual = "Rewrite in a clean, natural, conversational tone.";
    let p = system_prompt("formal");
    assert!(p.contains(formal) && !p.contains(casual));
    for tone in ["casual", "Formal", "normal", ""] {
        let p = system_prompt(tone);
        assert!(p.contains(casual) && !p.contains(formal));
    }
}

#[test]
fn server_ready_reply_ends_the_wait() {
    assert_eq!(server_poll_step(0, Some("{\"status\":\"ok\"}")), ServerPoll::Ready);
    assert_eq!(server_poll_step(HEALTH_POLLS - 1, Some("ok")), ServerPoll::Ready);
}

#[test]
fn server_is_polled_sixty_times_then_given_up() {
    assert_eq!(HEALTH_POLLS, 60);
    let mut polls = 0;
    let mut attempt = 0;
    loop {
        polls += 1;
        match server_poll_step(attempt, Some("{\"status\":\"loading model\"}")) {
            ServerPoll::PollAgain => attempt += 1,
            ServerPoll::GiveUp => break,
            ServerPoll::Ready => panic!("not ready"),
        }
    }
    assert_eq!(polls, 60);
    assert_eq!(server_poll_step(3, None), ServerPoll::PollAgain);
    assert_eq!(server_poll_step(59, None), ServerPoll::GiveUp);
}

#[test]
fn model_rewrite_skips_only_filler_transcripts() {
    assert_eq!(refine_rules_only("um, uh..."), None);
    let cleaned = refine_rules_only("um so like I was testing this").unwrap();
    assert_eq!(refine_with_reply(cleaned.clone(), None), "So I was testing this");
    assert_eq!(refine_with_reply(cleaned, Some("I was testing this.".to_string())), "I was testing this.");
}
