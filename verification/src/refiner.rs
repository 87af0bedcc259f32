//! Rule-based transcript cleanup, voice action commands, dictation
//! commands, and the text side of the LLM rewrite (the prompt, the chat
//! messages, and the cleanup of the model's reply).
use vstd::prelude::*;
use crate::text::{
    decimal, decimal_string,
    is_ws, lemma_trim_idempotent,
    opt_view,
    append_str, capitalize_chars, capitalized, chars_equal, chars_of, lowercase_of, string_of,
    tighten, tighten_chars, to_lowercase, trim, trim_chars, trim_end_char, trim_end_char_chars,
    only_ws_or, law_trim_drops_only_outer_whitespace, law_trim_empty_iff_blank,
    law_trim_end_char_strips_all, law_without_char_keeps_the_rest,
    trim_start, trim_str, without_char, without_char_chars,
};
use crate::pattern::{
    apply_rule_list, apply_rules, escape, escaped, is_regex_meta, regex_compiles, regex_replace_all,
    rule_of, Pattern,
};

verus! {

broadcast use vstd::string::group_string_axioms;

// ---------------------------------------------------------------------------
// Filler removal

/// The filler phrases, longest first, in the order they are removed.
pub open spec fn fillers() -> Seq<Seq<char>> {
    seq![
        "you know what I mean"@, "you know"@, "I mean"@, "okay so"@, "so yeah"@,
        "sort of"@, "kind of"@, "I guess"@, "uh huh"@, "basically"@, "literally"@,
        "actually"@, "like"@, "right"@, "well"@, "umm"@, "uhh"@, "hmm"@, "um"@, "uh"@, "hm"@,
    ]
}

fn filler_list() -> (v: Vec<&'static str>)
    ensures
        v@.map_values(|s: &str| s@) == fillers(),
{
    let v = vec![
        "you know what I mean", "you know", "I mean", "okay so", "so yeah",
        "sort of", "kind of", "I guess", "uh huh", "basically", "literally",
        "actually", "like", "right", "well", "umm", "uhh", "hmm", "um", "uh", "hm",
    ];
    assert(v@.map_values(|s: &str| s@) =~= fillers());
    v
}

/// The case-insensitive whole-word pattern for a filler, which also takes
/// one following comma and the whitespace after it.
pub open spec fn filler_pattern(f: Seq<char>) -> Seq<char> {
    r"(?i)\b"@ + escaped(f) + r"\b[,]?\s*"@
}

/// One rule per filler: its pattern, replaced by nothing.
pub open spec fn filler_rules() -> Seq<(Seq<char>, Seq<char>)> {
    fillers().map_values(|f: Seq<char>| (filler_pattern(f), Seq::<char>::empty()))
}

/// Runs of two or more whitespace characters become one space.
pub open spec fn space_rules() -> Seq<(Seq<char>, Seq<char>)> {
    seq![(r"\s{2,}"@, " "@)]
}

/// What `remove_fillers` returns: fillers removed, whitespace runs
/// collapsed, the space before "." and "," dropped, the ends trimmed and
/// the first character uppercased when it is lowercase.
pub open spec fn without_fillers(text: Seq<char>) -> Seq<char> {
    let collapsed = apply_rules(apply_rules(text, filler_rules()), space_rules());
    capitalized(trim(tighten(tighten(collapsed, '.'), ',')))
}

fn filler_pattern_string(f: &str) -> (r: String)
    ensures
        r@ == filler_pattern(f@),
{
    let mut r = r"(?i)\b".to_owned();
    let e = escape(f);
    append_str(&mut r, e.as_str());
    append_str(&mut r, r"\b[,]?\s*");
    r
}

/// Removes filler words ("um", "you know", ...) and tidies the spacing.
/// The whitespace pattern always compiles; should it not, the text would
/// keep its runs of whitespace.
pub fn remove_fillers(text: &str) -> (r: String)
    ensures
        r@ == without_fillers(text@),
{
    let fl = filler_list();
    let ghost rules = filler_rules();
    let mut result = text.to_owned();
    let n = fl.len();
    let mut i: usize = 0;
    while i < n
        invariant
            n == fl@.len(),
            fl@.map_values(|s: &str| s@) == fillers(),
            rules == filler_rules(),
            rules.len() == n,
            i <= n,
            result@ == apply_rules(text@, rules.take(i as int)),
        decreases n - i,
    {
        let f = fl[i];
        let pat = filler_pattern_string(f);
        proof {
            reveal_strlit("");
            assert(""@ =~= Seq::<char>::empty());
            assert(fl@.map_values(|s: &str| s@)[i as int] == fl@[i as int]@);
            assert(fillers()[i as int] == f@);
            assert(rules[i as int] == (filler_pattern(fillers()[i as int]), Seq::<char>::empty()));
            assert(rules.take(i + 1).drop_last() =~= rules.take(i as int));
            assert(rules.take(i + 1).last() == (filler_pattern(f@), Seq::<char>::empty()));
        }
        match Pattern::new(pat.as_str()) {
            Some(p) => {
                result = p.replace_all(result.as_str(), "");
            },
            None => {},
        }
        i += 1;
    }
    assert(rules.take(n as int) =~= rules);
    let spaces = vec![(r"\s{2,}", " ")];
    assert(spaces@.map_values(|x: (&str, &str)| rule_of(x)) =~= space_rules());
    let collapsed = apply_rule_list(result.as_str(), &spaces);
    let v = chars_of(collapsed.as_str());
    let v = tighten_chars(v.as_slice(), '.');
    let v = tighten_chars(v.as_slice(), ',');
    let v = trim_chars(v.as_slice());
    let v = capitalize_chars(v.as_slice());
    string_of(v.as_slice())
}

/// The text with every '.' and ',' removed and the ends trimmed: what is
/// left of a transcript once punctuation is set aside.
pub open spec fn bare_words(s: Seq<char>) -> Seq<char> {
    trim(without_char(without_char(s, '.'), ','))
}

fn bare_words_of(s: &str) -> (r: Vec<char>)
    ensures
        r@ == bare_words(s@),
{
    let v = chars_of(s);
    let v = without_char_chars(v.as_slice(), '.');
    let v = without_char_chars(v.as_slice(), ',');
    trim_chars(v.as_slice())
}

/// What `refine_rules_only` returns: `None` when nothing but fillers and
/// punctuation was said, else the text without fillers.
pub open spec fn rules_only(text: Seq<char>) -> Option<Seq<char>> {
    if bare_words(without_fillers(text)).len() == 0 {
        None
    } else {
        Some(without_fillers(text))
    }
}

/// Rule-based cleanup gives nothing exactly when, once the fillers are
/// removed, only whitespace, periods and commas are left; otherwise it gives
/// the text without fillers, punctuation included.
pub proof fn law_cleanup_skips_only_punctuation(text: Seq<char>)
    ensures
        rules_only(text) is None <==> only_ws_or(without_fillers(text), set!['.', ',']),
        rules_only(text) is Some ==> rules_only(text) == Some(without_fillers(text)),
{
    let w = without_fillers(text);
    let w1 = without_char(w, '.');
    let w2 = without_char(w1, ',');
    law_trim_empty_iff_blank(w2);
    law_without_char_keeps_the_rest(w1, ',', Set::empty());
    law_without_char_keeps_the_rest(w, '.', Set::empty().insert(','));
    assert(Set::<char>::empty().insert(',') =~= set![',']);
    assert(set![','].insert('.') =~= set!['.', ',']);
}

/// Rule-based cleanup: removes fillers; `None` when nothing else is left.
pub fn refine_rules_only(text: &str) -> (r: Option<String>)
    ensures
        r matches Some(s) ==> rules_only(text@) == Some(s@),
        r is None <==> rules_only(text@) is None,
{
    let cleaned = remove_fillers(text);
    let stripped = bare_words_of(cleaned.as_str());
    if stripped.len() == 0 {
        None
    } else {
        Some(cleaned)
    }
}

// ---------------------------------------------------------------------------
// Action commands

/// Actions that can be triggered by voice commands.
#[derive(Debug, PartialEq, Eq, Structural, Clone, Copy)]
pub enum Action {
    NoAction,
    Undo,
    SelectAll,
}

/// The utterance as it is matched against the action phrases: trimmed,
/// lowercased, trailing '.' then trailing ',' removed, trimmed again.
pub open spec fn command_text(text: Seq<char>) -> Seq<char> {
    trim(trim_end_char(trim_end_char(lowercase_of(trim(text)), '.'), ','))
}

/// The action a normalized utterance names.
pub open spec fn action_named(n: Seq<char>) -> Action {
    if n == "delete that"@ || n == "undo that"@ || n == "undo"@ || n == "scratch that"@ {
        Action::Undo
    } else if n == "select all"@ {
        Action::SelectAll
    } else {
        Action::NoAction
    }
}

/// The action phrases: an utterance asks to undo the last paste exactly when,
/// normalized, it is "delete that", "undo that", "undo" or "scratch that";
/// it asks to select all exactly when it is "select all"; any other
/// utterance is no action.
pub proof fn law_action_phrases(n: Seq<char>)
    ensures
        (action_named(n) == Action::Undo) <==> (n == "delete that"@ || n == "undo that"@ || n
            == "undo"@ || n == "scratch that"@),
        (action_named(n) == Action::SelectAll) <==> n == "select all"@,
{
    reveal_strlit("delete that");
    reveal_strlit("undo that");
    reveal_strlit("undo");
    reveal_strlit("scratch that");
    reveal_strlit("select all");
    assert("select all"@[0] == 's' && "scratch that"@[1] == 'c' && "select all"@[1] == 'e');
}

/// An utterance is matched lowercased, with trailing periods and then
/// trailing commas removed, and with no whitespace at either end: the text
/// matched is a contiguous part of the lowercased utterance, everything
/// after it is whitespace, periods or commas, and trimming it changes
/// nothing.
pub proof fn law_utterance_normalized(text: Seq<char>)
    ensures
        trim(command_text(text)) == command_text(text),
        exists|i: int, j: int|
            0 <= i <= j <= lowercase_of(trim(text)).len() && command_text(text)
                == lowercase_of(trim(text)).subrange(i, j) && (forall|k: int|
                j <= k < lowercase_of(trim(text)).len() ==> is_ws(
                    #[trigger] lowercase_of(trim(text))[k],
                ) || lowercase_of(trim(text))[k] == '.' || lowercase_of(trim(text))[k] == ','),
{
    let l = lowercase_of(trim(text));
    let a = trim_end_char(l, '.');
    let b = trim_end_char(a, ',');
    law_trim_end_char_strips_all(l, '.');
    law_trim_end_char_strips_all(a, ',');
    law_trim_drops_only_outer_whitespace(b);
    lemma_trim_idempotent(b);
    let (i, j) = choose|i: int, j: int|
        0 <= i <= j <= b.len() && trim(b) == b.subrange(i, j) && (forall|k: int|
            0 <= k < i ==> is_ws(#[trigger] b[k])) && (forall|k: int|
            j <= k < b.len() ==> is_ws(#[trigger] b[k]));
    assert(command_text(text) =~= l.subrange(i, j));
    assert forall|k: int| j <= k < l.len() implies is_ws(#[trigger] l[k]) || l[k] == '.' || l[k] == ',' by {
        if k < b.len() {
            assert(l[k] == b[k]);
        } else if k < a.len() {
            assert(l[k] == a[k]);
        }
    }
}

/// Checks whether the whole utterance is an action command.
pub fn check_action(text: &str) -> (a: Action)
    ensures
        a == action_named(command_text(text@)),
{
    let t = trim_str(text);
    let lower = to_lowercase(t.as_str());
    let v = chars_of(lower.as_str());
    let v = trim_end_char_chars(v.as_slice(), '.');
    let v = trim_end_char_chars(v.as_slice(), ',');
    let v = trim_chars(v.as_slice());
    if chars_equal(v.as_slice(), "delete that") || chars_equal(v.as_slice(), "undo that")
        || chars_equal(v.as_slice(), "undo") || chars_equal(v.as_slice(), "scratch that") {
        Action::Undo
    } else if chars_equal(v.as_slice(), "select all") {
        Action::SelectAll
    } else {
        Action::NoAction
    }
}

// ---------------------------------------------------------------------------
// Dictation commands

/// Spoken punctuation and layout words, with what each becomes, in the
/// order they are applied.
pub open spec fn command_rules() -> Seq<(Seq<char>, Seq<char>)> {
    seq![
        (r"(?i)\bnew paragraphs?\b"@, "\n\n"@),
        (r"(?i)\bnewlines?\b"@, "\n"@),
        (r"(?i)\bnew lines?\b"@, "\n"@),
        (r"(?i)\bquestion marks?\b"@, "?"@),
        (r"(?i)\bexclamation (point|mark)s?\b"@, "!"@),
        (r"(?i)\bopen parenthesis\b"@, "("@),
        (r"(?i)\bclose parenthesis\b"@, ")"@),
        (r"(?i)\bopen paren\b"@, "("@),
        (r"(?i)\bclose paren\b"@, ")"@),
        (r"(?i)\bperiod\b"@, "."@),
        (r"(?i)\bsemicolons?\b"@, ";"@),
        (r"(?i)\bcolons?\b"@, ":"@),
    ]
}

/// Spacing cleanups after the commands: no space or tab before closing
/// punctuation, none after "(", none around a newline.
pub open spec fn spacing_rules() -> Seq<(Seq<char>, Seq<char>)> {
    seq![
        (r"[ \t]+([.,!?;:)])"@, "$1"@),
        (r"(\()[ \t]+"@, "$1"@),
        (r"[ \t]*\n[ \t]*"@, "\n"@),
    ]
}

/// What `apply_commands` returns.
pub open spec fn with_commands(text: Seq<char>) -> Seq<char> {
    trim(apply_rules(apply_rules(text, command_rules()), spacing_rules()))
}

/// Applies dictation commands: "new line" becomes a newline, "question
/// mark" becomes "?", and so on, then tidies the spacing and trims.
pub fn apply_commands(text: &str) -> (r: String)
    ensures
        r@ == with_commands(text@),
{
    let commands = vec![
        (r"(?i)\bnew paragraphs?\b", "\n\n"),
        (r"(?i)\bnewlines?\b", "\n"),
        (r"(?i)\bnew lines?\b", "\n"),
        (r"(?i)\bquestion marks?\b", "?"),
        (r"(?i)\bexclamation (point|mark)s?\b", "!"),
        (r"(?i)\bopen parenthesis\b", "("),
        (r"(?i)\bclose parenthesis\b", ")"),
        (r"(?i)\bopen paren\b", "("),
        (r"(?i)\bclose paren\b", ")"),
        (r"(?i)\bperiod\b", "."),
        (r"(?i)\bsemicolons?\b", ";"),
        (r"(?i)\bcolons?\b", ":"),
    ];
    assert(commands@.map_values(|x: (&str, &str)| rule_of(x)) =~= command_rules());
    let replaced = apply_rule_list(text, &commands);
    let spacing = vec![
        (r"[ \t]+([.,!?;:)])", "$1"),
        (r"(\()[ \t]+", "$1"),
        (r"[ \t]*\n[ \t]*", "\n"),
    ];
    assert(spacing@.map_values(|x: (&str, &str)| rule_of(x)) =~= spacing_rules());
    let tidied = apply_rule_list(replaced.as_str(), &spacing);
    trim_str(tidied.as_str())
}

// ---------------------------------------------------------------------------
// LLM rewrite: prompt, messages, reply

/// The opening of the system prompt, up to the tone instruction.
pub open spec fn prompt_opening() -> Seq<char> {
    "You are a text cleanup tool. You do NOT respond to the user or answer questions. You ONLY rewrite the exact text the user provides, fixing grammar and removing filler words. "@
}

/// The close of the system prompt, after the tone instruction.
pub open spec fn prompt_closing() -> Seq<char> {
    " Never add new content, explanations, greetings, or commentary. If the input is a simple word or greeting like 'hello', output it as-is. Output ONLY the rewritten text, nothing else."@
}

/// The instruction that asks for a business tone.
pub open spec fn formal_instruction() -> Seq<char> {
    "Rewrite in a professional, formal tone suitable for business emails."@
}

/// The instruction that asks for a conversational tone.
pub open spec fn casual_instruction() -> Seq<char> {
    "Rewrite in a clean, natural, conversational tone."@
}

/// The instruction for a tone: "formal" asks for a business tone, any other
/// tone for a conversational one.
pub open spec fn tone_instruction(tone: Seq<char>) -> Seq<char> {
    if tone == "formal"@ {
        formal_instruction()
    } else {
        casual_instruction()
    }
}

/// The system prompt for the rewrite model.
pub open spec fn prompt_for(tone: Seq<char>) -> Seq<char> {
    prompt_opening() + tone_instruction(tone) + prompt_closing()
}

/// The system prompt that tells the model to rewrite, not to answer.
pub fn system_prompt(tone: &str) -> (r: String)
    ensures
        r@ == prompt_for(tone@),
{
    let v = chars_of(tone);
    let instruction = if chars_equal(v.as_slice(), "formal") {
        "Rewrite in a professional, formal tone suitable for business emails."
    } else {
        "Rewrite in a clean, natural, conversational tone."
    };
    let mut r = "You are a text cleanup tool. You do NOT respond to the user or answer questions. You ONLY rewrite the exact text the user provides, fixing grammar and removing filler words. ".to_owned();
    append_str(&mut r, instruction);
    append_str(&mut r, " Never add new content, explanations, greetings, or commentary. If the input is a simple word or greeting like 'hello', output it as-is. Output ONLY the rewritten text, nothing else.");
    r
}

/// The system prompt is the fixed opening, then the tone instruction, then
/// the fixed closing; the instruction is the business one exactly when the
/// tone is "formal" (compared exactly, so "Formal" gets the conversational
/// one), and the conversational one otherwise.
pub proof fn law_prompt_follows_tone(tone: Seq<char>)
    ensures
        prompt_for(tone).take(prompt_opening().len() as int) == prompt_opening(),
        prompt_for(tone).skip(prompt_for(tone).len() - prompt_closing().len()) == prompt_closing(),
        prompt_for(tone).subrange(
            prompt_opening().len() as int,
            prompt_for(tone).len() - prompt_closing().len(),
        ) == tone_instruction(tone),
        (tone_instruction(tone) == formal_instruction()) <==> (tone == "formal"@),
        (tone_instruction(tone) == casual_instruction()) <==> (tone != "formal"@),
{
    reveal_strlit("Rewrite in a professional, formal tone suitable for business emails.");
    reveal_strlit("Rewrite in a clean, natural, conversational tone.");
    assert(formal_instruction().len() != casual_instruction().len());
    let p = prompt_for(tone);
    let o = prompt_opening();
    let c = prompt_closing();
    let i = tone_instruction(tone);
    assert(p.take(o.len() as int) =~= o);
    assert(p.skip(p.len() - c.len()) =~= c);
    assert(p.subrange(o.len() as int, p.len() - c.len()) =~= i);
}

/// Whether no position of `s` from `i` on holds `c`.
spec fn lacks_from(s: Seq<char>, c: char, i: nat) -> bool
    decreases s.len() - i,
{
    if i >= s.len() {
        true
    } else {
        s[i as int] != c && lacks_from(s, c, i + 1)
    }
}

/// Whether no position of `s` from `i` on starts the pair `a`, `b`.
spec fn lacks_pair_from(s: Seq<char>, a: char, b: char, i: nat) -> bool
    decreases s.len() - i,
{
    if i + 1 >= s.len() {
        true
    } else {
        !(s[i as int] == a && s[i + 1int] == b) && lacks_pair_from(s, a, b, i + 1)
    }
}

/// Where `c` is absent from position `i` on, no such position holds it.
proof fn lemma_lacks_from(s: Seq<char>, c: char, i: nat, j: int)
    requires
        lacks_from(s, c, i),
        i <= j < s.len(),
    ensures
        s[j] != c,
    decreases j - i,
{
    if j > i {
        lemma_lacks_from(s, c, i + 1, j);
    }
}

/// Where the pair is absent from position `i` on, no such position starts it.
proof fn lemma_lacks_pair_from(s: Seq<char>, a: char, b: char, i: nat, j: int)
    requires
        lacks_pair_from(s, a, b, i),
        i <= j,
        j + 1 < s.len(),
    ensures
        !(s[j] == a && s[j + 1] == b),
    decreases j - i,
{
    if j > i {
        lemma_lacks_pair_from(s, a, b, i + 1, j);
    }
}

/// The prompt's opening holds no 'b' and no "n,". The checks run from the
/// end towards the start, each step unfolding them over some forty
/// positions of the revealed text.
proof fn lemma_opening_lacks()
    ensures
        lacks_from(prompt_opening(), 'b', 0),
        lacks_pair_from(prompt_opening(), 'n', ',', 0),
{
    reveal_strlit("You are a text cleanup tool. You do NOT respond to the user or answer questions. You ONLY rewrite the exact text the user provides, fixing grammar and removing filler words. ");
    let s = prompt_opening();
    assert(lacks_from(s, 'b', 160)) by { reveal_with_fuel(lacks_from, 16); }
    assert(lacks_from(s, 'b', 120)) by { reveal_with_fuel(lacks_from, 42); }
    assert(lacks_from(s, 'b', 80)) by { reveal_with_fuel(lacks_from, 42); }
    assert(lacks_from(s, 'b', 40)) by { reveal_with_fuel(lacks_from, 42); }
    assert(lacks_from(s, 'b', 0)) by { reveal_with_fuel(lacks_from, 42); }
    assert(lacks_pair_from(s, 'n', ',', 160)) by { reveal_with_fuel(lacks_pair_from, 16); }
    assert(lacks_pair_from(s, 'n', ',', 120)) by { reveal_with_fuel(lacks_pair_from, 42); }
    assert(lacks_pair_from(s, 'n', ',', 80)) by { reveal_with_fuel(lacks_pair_from, 42); }
    assert(lacks_pair_from(s, 'n', ',', 40)) by { reveal_with_fuel(lacks_pair_from, 42); }
    assert(lacks_pair_from(s, 'n', ',', 0)) by { reveal_with_fuel(lacks_pair_from, 42); }
}

/// The prompt's close holds no 'b' and no "n,".
proof fn lemma_closing_lacks()
    ensures
        lacks_from(prompt_closing(), 'b', 0),
        lacks_pair_from(prompt_closing(), 'n', ',', 0),
{
    reveal_strlit(" Never add new content, explanations, greetings, or commentary. If the input is a simple word or greeting like 'hello', output it as-is. Output ONLY the rewritten text, nothing else.");
    let s = prompt_closing();
    assert(lacks_from(s, 'b', 160)) by { reveal_with_fuel(lacks_from, 24); }
    assert(lacks_from(s, 'b', 120)) by { reveal_with_fuel(lacks_from, 42); }
    assert(lacks_from(s, 'b', 80)) by { reveal_with_fuel(lacks_from, 42); }
    assert(lacks_from(s, 'b', 40)) by { reveal_with_fuel(lacks_from, 42); }
    assert(lacks_from(s, 'b', 0)) by { reveal_with_fuel(lacks_from, 42); }
    assert(lacks_pair_from(s, 'n', ',', 160)) by { reveal_with_fuel(lacks_pair_from, 24); }
    assert(lacks_pair_from(s, 'n', ',', 120)) by { reveal_with_fuel(lacks_pair_from, 42); }
    assert(lacks_pair_from(s, 'n', ',', 80)) by { reveal_with_fuel(lacks_pair_from, 42); }
    assert(lacks_pair_from(s, 'n', ',', 40)) by { reveal_with_fuel(lacks_pair_from, 42); }
    assert(lacks_pair_from(s, 'n', ',', 0)) by { reveal_with_fuel(lacks_pair_from, 42); }
}

/// The business instruction holds no "n,".
proof fn lemma_formal_lacks()
    ensures
        lacks_pair_from(formal_instruction(), 'n', ',', 0),
{
    reveal_strlit("Rewrite in a professional, formal tone suitable for business emails.");
    let s = formal_instruction();
    assert(lacks_pair_from(s, 'n', ',', 40)) by { reveal_with_fuel(lacks_pair_from, 30); }
    assert(lacks_pair_from(s, 'n', ',', 0)) by { reveal_with_fuel(lacks_pair_from, 42); }
}

/// The conversational instruction holds no 'b'.
proof fn lemma_casual_lacks()
    ensures
        lacks_from(casual_instruction(), 'b', 0),
{
    reveal_strlit("Rewrite in a clean, natural, conversational tone.");
    let s = casual_instruction();
    assert(lacks_from(s, 'b', 40)) by { reveal_with_fuel(lacks_from, 11); }
    assert(lacks_from(s, 'b', 0)) by { reveal_with_fuel(lacks_from, 42); }
}

/// The business instruction holds a 'b' (in "business"), and no prompt
/// with the conversational instruction does.
proof fn lemma_casual_prompt_lacks_formal(tone: Seq<char>)
    requires
        tone != "formal"@,
    ensures
        !contains_text(prompt_for(tone), formal_instruction()),
{
    reveal_strlit("Rewrite in a professional, formal tone suitable for business emails.");
    let p = prompt_for(tone);
    let o = prompt_opening();
    let k = casual_instruction();
    let c = prompt_closing();
    let f = formal_instruction();
    lemma_opening_lacks();
    lemma_closing_lacks();
    lemma_casual_lacks();
    if contains_text(p, f) {
        let i = choose|i: int| 0 <= i && i + f.len() <= p.len() && #[trigger] p.subrange(i, i + f.len()) == f;
        assert(f[44] == 'b');
        assert(p.subrange(i, i + f.len())[44] == p[i + 44]);
        let j = i + 44;
        assert(p == o + k + c);
        if j < o.len() {
            lemma_lacks_from(o, 'b', 0, j);
        } else if j < o.len() + k.len() {
            lemma_lacks_from(k, 'b', 0, j - o.len());
        } else {
            lemma_lacks_from(c, 'b', 0, j - o.len() - k.len());
        }
    }
}

/// The conversational instruction holds "n," (in "clean,"), and the prompt
/// with the business instruction does not.
proof fn lemma_formal_prompt_lacks_casual()
    ensures
        !contains_text(prompt_for("formal"@), casual_instruction()),
{
    reveal_strlit("Rewrite in a clean, natural, conversational tone.");
    reveal_strlit("You are a text cleanup tool. You do NOT respond to the user or answer questions. You ONLY rewrite the exact text the user provides, fixing grammar and removing filler words. ");
    reveal_strlit("Rewrite in a professional, formal tone suitable for business emails.");
    let p = prompt_for("formal"@);
    let o = prompt_opening();
    let f = formal_instruction();
    let c = prompt_closing();
    let k = casual_instruction();
    lemma_opening_lacks();
    lemma_closing_lacks();
    lemma_formal_lacks();
    if contains_text(p, k) {
        let i = choose|i: int| 0 <= i && i + k.len() <= p.len() && #[trigger] p.subrange(i, i + k.len()) == k;
        assert(k[17] == 'n' && k[18] == ',');
        assert(p.subrange(i, i + k.len())[17] == p[i + 17]);
        assert(p.subrange(i, i + k.len())[18] == p[i + 18]);
        let j = i + 17;
        assert(p == o + f + c);
        assert(o.last() == ' ' && f.last() == '.');
        if j + 1 < o.len() {
            lemma_lacks_pair_from(o, 'n', ',', 0, j);
        } else if j + 1 == o.len() {
            assert(p[j] == o.last());
        } else if j + 1 < o.len() + f.len() {
            lemma_lacks_pair_from(f, 'n', ',', 0, j - o.len());
        } else if j + 1 == o.len() + f.len() {
            assert(p[j] == f.last());
        } else {
            lemma_lacks_pair_from(c, 'n', ',', 0, j - o.len() - f.len());
        }
    }
}

/// The system prompt holds the business instruction exactly when the tone
/// is "formal", and the conversational instruction exactly when it is not:
/// the instruction that was not chosen occurs nowhere in the prompt.
pub proof fn law_prompt_holds_one_instruction(tone: Seq<char>)
    ensures
        contains_text(prompt_for(tone), formal_instruction()) <==> tone == "formal"@,
        contains_text(prompt_for(tone), casual_instruction()) <==> tone != "formal"@,
{
    let p = prompt_for(tone);
    let o = prompt_opening();
    let i = tone_instruction(tone);
    assert(p.subrange(o.len() as int, (o.len() + i.len()) as int) =~= i);
    if tone == "formal"@ {
        lemma_formal_prompt_lacks_casual();
    } else {
        lemma_casual_prompt_lacks_formal(tone);
    }
}

/// The chat sent to the model: the system prompt, two worked examples,
/// then the text to rewrite, as (role, content) pairs.
pub open spec fn chat_for(tone: Seq<char>, text: Seq<char>) -> Seq<(Seq<char>, Seq<char>)> {
    seq![
        ("system"@, prompt_for(tone)),
        ("user"@, "um so like I was testing this"@),
        ("assistant"@, "I was testing this."@),
        ("user"@, "hello"@),
        ("assistant"@, "Hello."@),
        ("user"@, text),
    ]
}

/// The (role, content) messages of a rewrite request for `text`.
pub fn chat_messages(tone: &str, text: &str) -> (r: Vec<(String, String)>)
    ensures
        r@.map_values(|m: (String, String)| (m.0@, m.1@)) == chat_for(tone@, text@),
{
    let mut r: Vec<(String, String)> = Vec::new();
    r.push(("system".to_owned(), system_prompt(tone)));
    r.push(("user".to_owned(), "um so like I was testing this".to_owned()));
    r.push(("assistant".to_owned(), "I was testing this.".to_owned()));
    r.push(("user".to_owned(), "hello".to_owned()));
    r.push(("assistant".to_owned(), "Hello.".to_owned()));
    r.push(("user".to_owned(), text.to_owned()));
    assert(r@.map_values(|m: (String, String)| (m.0@, m.1@)) =~= chat_for(tone@, text@));
    r
}

/// The text at `doc[field][index][inner][leaf]` (serde_json's `Index`
/// lookups, which find nothing on a missing key, an out-of-range index or a
/// value of another kind) when `doc` parses and that value is a string.
pub uninterp spec fn json_str_at(
    doc: Seq<char>,
    field: Seq<char>,
    index: usize,
    inner: Seq<char>,
    leaf: Seq<char>,
) -> Option<Seq<char>>;

/// Parses `doc` with `serde_json::from_str` into a `serde_json::Value`,
/// indexes it with `Value`'s `Index` impls by `field`, `index`, `inner` and
/// `leaf`, and reads the result with `Value::as_str`; the result is named
/// `json_str_at`.
#[verifier::external_body]
fn json_str(doc: &str, field: &str, index: usize, inner: &str, leaf: &str) -> (r: Option<String>)
    ensures
        r is Some <==> json_str_at(doc@, field@, index, inner@, leaf@) is Some,
        r matches Some(s) ==> json_str_at(doc@, field@, index, inner@, leaf@) == Some(s@),
{
    let value: serde_json::Value = serde_json::from_str(doc).ok()?;
    match value[field][index][inner][leaf].as_str() {
        Some(s) => Some(s.to_owned()),
        None => None,
    }
}

/// Where a chat completion response holds the reply text:
/// `["choices"][0]["message"]["content"]`.
pub open spec fn reply_content(resp: Seq<char>) -> Option<Seq<char>> {
    json_str_at(resp, "choices"@, 0, "message"@, "content"@)
}

/// Preambles that models put before the rewritten text, removed in order.
pub open spec fn preambles() -> Seq<Seq<char>> {
    seq![
        "Here is the revised version:"@,
        "Here is the cleaned version:"@,
        "Here is the rewritten text:"@,
        "Here's the cleaned text:"@,
        "Cleaned text:"@,
        "Revised:"@,
        "Output:"@,
    ]
}

/// `s` after removing each preamble in turn where it begins the text, and
/// trimming what follows a removed preamble.
pub open spec fn strip_preambles(s: Seq<char>, ps: Seq<Seq<char>>) -> Seq<char>
    decreases ps.len(),
{
    if ps.len() == 0 {
        s
    } else {
        let prev = strip_preambles(s, ps.drop_last());
        let p = ps.last();
        if p.len() <= prev.len() && prev.take(p.len() as int) == p {
            trim(prev.skip(p.len() as int))
        } else {
            prev
        }
    }
}

/// The reply with its preambles removed.
pub open spec fn reply_body(content: Seq<char>) -> Seq<char> {
    strip_preambles(trim(content), preambles())
}

/// `s` without surrounding double quotes, when it has them.
pub open spec fn unquoted(s: Seq<char>) -> Seq<char> {
    if s.len() >= 2 && s[0] == '"' && s.last() == '"' {
        s.subrange(1, s.len() - 1)
    } else {
        s
    }
}

/// The rewritten text in a reply: trimmed, preambles and surrounding quotes
/// removed; `None` when nothing is left.
pub open spec fn reply_text(content: Seq<char>) -> Option<Seq<char>> {
    let r = unquoted(reply_body(content));
    if r.len() == 0 {
        None
    } else {
        Some(r)
    }
}

fn starts_with_chars(v: &[char], p: &[char]) -> (b: bool)
    ensures
        b == (p@.len() <= v@.len() && v@.take(p@.len() as int) == p@),
{
    if p.len() > v.len() {
        return false;
    }
    let n = p.len();
    let mut i: usize = 0;
    while i < n
        invariant
            n == p@.len(),
            n <= v@.len(),
            i <= n,
            forall|k: int| 0 <= k < i ==> v@[k] == p@[k],
        decreases n - i,
    {
        if v[i] != p[i] {
            assert(v@.take(n as int)[i as int] != p@[i as int]);
            return false;
        }
        i += 1;
    }
    assert(v@.take(n as int) =~= p@);
    true
}

fn preamble_list() -> (v: Vec<&'static str>)
    ensures
        v@.map_values(|s: &str| s@) == preambles(),
{
    let v = vec![
        "Here is the revised version:",
        "Here is the cleaned version:",
        "Here is the rewritten text:",
        "Here's the cleaned text:",
        "Cleaned text:",
        "Revised:",
        "Output:",
    ];
    assert(v@.map_values(|s: &str| s@) =~= preambles());
    v
}

fn reply_body_of(content: &str) -> (r: Vec<char>)
    ensures
        r@ == reply_body(content@),
{
    let pl = preamble_list();
    let ghost ps = preambles();
    let v = chars_of(content);
    let mut result = trim_chars(v.as_slice());
    let n = pl.len();
    let mut i: usize = 0;
    while i < n
        invariant
            n == pl@.len(),
            pl@.map_values(|s: &str| s@) == ps,
            ps == preambles(),
            i <= n,
            result@ == strip_preambles(trim(content@), ps.take(i as int)),
        decreases n - i,
    {
        let p = chars_of(pl[i]);
        proof {
            assert(ps.take(i + 1).drop_last() =~= ps.take(i as int));
            assert(pl@.map_values(|s: &str| s@)[i as int] == pl@[i as int]@);
            assert(ps.take(i + 1).last() == p@);
        }
        if starts_with_chars(result.as_slice(), p.as_slice()) {
            let mut rest: Vec<char> = Vec::new();
            let m = result.len();
            let mut k: usize = p.len();
            while k < m
                invariant
                    m == result@.len(),
                    p@.len() <= k <= m,
                    rest@ == result@.subrange(p@.len() as int, k as int),
                decreases m - k,
            {
                rest.push(result[k]);
                assert(result@.subrange(p@.len() as int, k as int).push(result@[k as int])
                    =~= result@.subrange(p@.len() as int, k + 1));
                k += 1;
            }
            assert(rest@ =~= result@.skip(p@.len() as int));
            result = trim_chars(rest.as_slice());
        }
        i += 1;
    }
    assert(ps.take(n as int) =~= ps);
    result
}

/// Cleans a model reply: trims it, removes known preambles and surrounding
/// quotes; `None` when nothing is left. A reply that comes down to a lone
/// double quote is not accepted.
pub fn clean_reply(content: &str) -> (r: Option<String>)
    requires
        reply_body(content@) != seq!['"'],
    ensures
        r matches Some(s) ==> reply_text(content@) == Some(s@),
        r is None <==> reply_text(content@) is None,
{
    let body = reply_body_of(content);
    let n = body.len();
    let text = if n >= 2 && body[0] == '"' && body[n - 1] == '"' {
        let mut inner: Vec<char> = Vec::new();
        let mut k: usize = 1;
        while k < n - 1
            invariant
                n == body@.len(),
                n >= 2,
                1 <= k <= n - 1,
                inner@ == body@.subrange(1, k as int),
            decreases n - 1 - k,
        {
            inner.push(body[k]);
            assert(body@.subrange(1, k as int).push(body@[k as int]) =~= body@.subrange(1, k + 1));
            k += 1;
        }
        inner
    } else {
        body
    };
    if text.len() == 0 {
        None
    } else {
        Some(string_of(text.as_slice()))
    }
}

/// What `parse_reply` returns for a response document.
pub open spec fn reply_of_response(resp: Seq<char>) -> Option<Seq<char>> {
    match reply_content(resp) {
        None => None,
        Some(content) => if reply_body(content) == seq!['"'] {
            None
        } else {
            reply_text(content)
        },
    }
}

/// Reads the rewritten text out of a chat completion response: `None` when
/// the response has no reply text, when the cleaned reply is empty, or when
/// it comes down to a lone double quote.
pub fn parse_reply(resp: &str) -> (r: Option<String>)
    ensures
        r is None <==> reply_of_response(resp@) is None,
        r matches Some(s) ==> reply_of_response(resp@) == Some(s@),
{
    let content = json_str(resp, "choices", 0, "message", "content");
    match content {
        None => None,
        Some(c) => {
            let body = reply_body_of(c.as_str());
            if body.len() == 1 && body[0] == '"' {
                assert(body@ =~= seq!['"']);
                None
            } else {
                assert(body@ != seq!['"']);
                clean_reply(c.as_str())
            }
        },
    }
}

/// What `refine` returns once the model has answered (or not): the model's
/// text when it gave a non-empty one, else the rule-cleaned text.
pub open spec fn refined_with(cleaned: Seq<char>, reply: Option<Seq<char>>) -> Seq<char> {
    match reply {
        Some(t) => if t.len() > 0 { t } else { cleaned },
        None => cleaned,
    }
}

/// Chooses between the model's reply and the rule-cleaned text.
pub fn refine_with_reply(cleaned: String, reply: Option<String>) -> (r: String)
    ensures
        r@ == refined_with(cleaned@, opt_view(reply)),
{
    match reply {
        Some(t) => {
            if t.as_str().is_empty() {
                cleaned
            } else {
                t
            }
        },
        None => cleaned,
    }
}

/// Whether no character of `s` from `i` on is a regex meta character.
spec fn plain_from(s: Seq<char>, i: nat) -> bool
    decreases s.len() - i,
{
    if i >= s.len() {
        true
    } else {
        !is_regex_meta(s[i as int]) && plain_from(s, i + 1)
    }
}

/// Where no character from position `i` on is a meta character, none at
/// such a position is.
proof fn lemma_plain_from(s: Seq<char>, i: nat, j: int)
    requires
        plain_from(s, i),
        i <= j < s.len(),
    ensures
        !is_regex_meta(s[j]),
    decreases j - i,
{
    if j > i {
        lemma_plain_from(s, i + 1, j);
    }
}

/// Text without regex meta characters is its own escape.
proof fn lemma_escaped_plain(s: Seq<char>)
    requires
        forall|j: int| 0 <= j < s.len() ==> !is_regex_meta(#[trigger] s[j]),
    ensures
        escaped(s) == s,
    decreases s.len(),
{
    if s.len() > 0 {
        let d = s.drop_last();
        assert forall|j: int| 0 <= j < d.len() implies !is_regex_meta(#[trigger] d[j]) by {
            assert(d[j] == s[j]);
        }
        lemma_escaped_plain(d);
        assert(d.push(s.last()) =~= s);
    }
}

/// The whole-word pattern of a filler without regex meta characters.
proof fn lemma_plain_filler_pattern(f: Seq<char>)
    requires
        plain_from(f, 0),
    ensures
        filler_pattern(f) == r"(?i)\b"@ + f + r"\b[,]?\s*"@,
{
    assert forall|j: int| 0 <= j < f.len() implies !is_regex_meta(#[trigger] f[j]) by {
        lemma_plain_from(f, 0, j);
    }
    lemma_escaped_plain(f);
}

/// The pattern of the filler "you know what I mean".
proof fn lemma_filler_pattern_0()
    ensures
        filler_pattern("you know what I mean"@) == r"(?i)\byou know what I mean\b[,]?\s*"@,
{
    reveal_strlit("you know what I mean");
    reveal_strlit(r"(?i)\byou know what I mean\b[,]?\s*");
    reveal_strlit(r"(?i)\b");
    reveal_strlit(r"\b[,]?\s*");
    assert(plain_from("you know what I mean"@, 0)) by { reveal_with_fuel(plain_from, 22); }
    lemma_plain_filler_pattern("you know what I mean"@);
    assert(r"(?i)\b"@ + "you know what I mean"@ + r"\b[,]?\s*"@ =~= r"(?i)\byou know what I mean\b[,]?\s*"@);
}

/// The pattern of the filler "you know".
proof fn lemma_filler_pattern_1()
    ensures
        filler_pattern("you know"@) == r"(?i)\byou know\b[,]?\s*"@,
{
    reveal_strlit("you know");
    reveal_strlit(r"(?i)\byou know\b[,]?\s*");
    reveal_strlit(r"(?i)\b");
    reveal_strlit(r"\b[,]?\s*");
    assert(plain_from("you know"@, 0)) by { reveal_with_fuel(plain_from, 10); }
    lemma_plain_filler_pattern("you know"@);
    assert(r"(?i)\b"@ + "you know"@ + r"\b[,]?\s*"@ =~= r"(?i)\byou know\b[,]?\s*"@);
}

/// The pattern of the filler "I mean".
proof fn lemma_filler_pattern_2()
    ensures
        filler_pattern("I mean"@) == r"(?i)\bI mean\b[,]?\s*"@,
{
    reveal_strlit("I mean");
    reveal_strlit(r"(?i)\bI mean\b[,]?\s*");
    reveal_strlit(r"(?i)\b");
    reveal_strlit(r"\b[,]?\s*");
    assert(plain_from("I mean"@, 0)) by { reveal_with_fuel(plain_from, 8); }
    lemma_plain_filler_pattern("I mean"@);
    assert(r"(?i)\b"@ + "I mean"@ + r"\b[,]?\s*"@ =~= r"(?i)\bI mean\b[,]?\s*"@);
}

/// The pattern of the filler "okay so".
proof fn lemma_filler_pattern_3()
    ensures
        filler_pattern("okay so"@) == r"(?i)\bokay so\b[,]?\s*"@,
{
    reveal_strlit("okay so");
    reveal_strlit(r"(?i)\bokay so\b[,]?\s*");
    reveal_strlit(r"(?i)\b");
    reveal_strlit(r"\b[,]?\s*");
    assert(plain_from("okay so"@, 0)) by { reveal_with_fuel(plain_from, 9); }
    lemma_plain_filler_pattern("okay so"@);
    assert(r"(?i)\b"@ + "okay so"@ + r"\b[,]?\s*"@ =~= r"(?i)\bokay so\b[,]?\s*"@);
}

/// The pattern of the filler "so yeah".
proof fn lemma_filler_pattern_4()
    ensures
        filler_pattern("so yeah"@) == r"(?i)\bso yeah\b[,]?\s*"@,
{
    reveal_strlit("so yeah");
    reveal_strlit(r"(?i)\bso yeah\b[,]?\s*");
    reveal_strlit(r"(?i)\b");
    reveal_strlit(r"\b[,]?\s*");
    assert(plain_from("so yeah"@, 0)) by { reveal_with_fuel(plain_from, 9); }
    lemma_plain_filler_pattern("so yeah"@);
    assert(r"(?i)\b"@ + "so yeah"@ + r"\b[,]?\s*"@ =~= r"(?i)\bso yeah\b[,]?\s*"@);
}

/// The pattern of the filler "sort of".
proof fn lemma_filler_pattern_5()
    ensures
        filler_pattern("sort of"@) == r"(?i)\bsort of\b[,]?\s*"@,
{
    reveal_strlit("sort of");
    reveal_strlit(r"(?i)\bsort of\b[,]?\s*");
    reveal_strlit(r"(?i)\b");
    reveal_strlit(r"\b[,]?\s*");
    assert(plain_from("sort of"@, 0)) by { reveal_with_fuel(plain_from, 9); }
    lemma_plain_filler_pattern("sort of"@);
    assert(r"(?i)\b"@ + "sort of"@ + r"\b[,]?\s*"@ =~= r"(?i)\bsort of\b[,]?\s*"@);
}

/// The pattern of the filler "kind of".
proof fn lemma_filler_pattern_6()
    ensures
        filler_pattern("kind of"@) == r"(?i)\bkind of\b[,]?\s*"@,
{
    reveal_strlit("kind of");
    reveal_strlit(r"(?i)\bkind of\b[,]?\s*");
    reveal_strlit(r"(?i)\b");
    reveal_strlit(r"\b[,]?\s*");
    assert(plain_from("kind of"@, 0)) by { reveal_with_fuel(plain_from, 9); }
    lemma_plain_filler_pattern("kind of"@);
    assert(r"(?i)\b"@ + "kind of"@ + r"\b[,]?\s*"@ =~= r"(?i)\bkind of\b[,]?\s*"@);
}

/// The pattern of the filler "I guess".
proof fn lemma_filler_pattern_7()
    ensures
        filler_pattern("I guess"@) == r"(?i)\bI guess\b[,]?\s*"@,
{
    reveal_strlit("I guess");
    reveal_strlit(r"(?i)\bI guess\b[,]?\s*");
    reveal_strlit(r"(?i)\b");
    reveal_strlit(r"\b[,]?\s*");
    assert(plain_from("I guess"@, 0)) by { reveal_with_fuel(plain_from, 9); }
    lemma_plain_filler_pattern("I guess"@);
    assert(r"(?i)\b"@ + "I guess"@ + r"\b[,]?\s*"@ =~= r"(?i)\bI guess\b[,]?\s*"@);
}

/// The pattern of the filler "uh huh".
proof fn lemma_filler_pattern_8()
    ensures
        filler_pattern("uh huh"@) == r"(?i)\buh huh\b[,]?\s*"@,
{
    reveal_strlit("uh huh");
    reveal_strlit(r"(?i)\buh huh\b[,]?\s*");
    reveal_strlit(r"(?i)\b");
    reveal_strlit(r"\b[,]?\s*");
    assert(plain_from("uh huh"@, 0)) by { reveal_with_fuel(plain_from, 8); }
    lemma_plain_filler_pattern("uh huh"@);
    assert(r"(?i)\b"@ + "uh huh"@ + r"\b[,]?\s*"@ =~= r"(?i)\buh huh\b[,]?\s*"@);
}

/// The pattern of the filler "basically".
proof fn lemma_filler_pattern_9()
    ensures
        filler_pattern("basically"@) == r"(?i)\bbasically\b[,]?\s*"@,
{
    reveal_strlit("basically");
    reveal_strlit(r"(?i)\bbasically\b[,]?\s*");
    reveal_strlit(r"(?i)\b");
    reveal_strlit(r"\b[,]?\s*");
    assert(plain_from("basically"@, 0)) by { reveal_with_fuel(plain_from, 11); }
    lemma_plain_filler_pattern("basically"@);
    assert(r"(?i)\b"@ + "basically"@ + r"\b[,]?\s*"@ =~= r"(?i)\bbasically\b[,]?\s*"@);
}

/// The pattern of the filler "literally".
proof fn lemma_filler_pattern_10()
    ensures
        filler_pattern("literally"@) == r"(?i)\bliterally\b[,]?\s*"@,
{
    reveal_strlit("literally");
    reveal_strlit(r"(?i)\bliterally\b[,]?\s*");
    reveal_strlit(r"(?i)\b");
    reveal_strlit(r"\b[,]?\s*");
    assert(plain_from("literally"@, 0)) by { reveal_with_fuel(plain_from, 11); }
    lemma_plain_filler_pattern("literally"@);
    assert(r"(?i)\b"@ + "literally"@ + r"\b[,]?\s*"@ =~= r"(?i)\bliterally\b[,]?\s*"@);
}

/// The pattern of the filler "actually".
proof fn lemma_filler_pattern_11()
    ensures
        filler_pattern("actually"@) == r"(?i)\bactually\b[,]?\s*"@,
{
    reveal_strlit("actually");
    reveal_strlit(r"(?i)\bactually\b[,]?\s*");
    reveal_strlit(r"(?i)\b");
    reveal_strlit(r"\b[,]?\s*");
    assert(plain_from("actually"@, 0)) by { reveal_with_fuel(plain_from, 10); }
    lemma_plain_filler_pattern("actually"@);
    assert(r"(?i)\b"@ + "actually"@ + r"\b[,]?\s*"@ =~= r"(?i)\bactually\b[,]?\s*"@);
}

/// The pattern of the filler "like".
proof fn lemma_filler_pattern_12()
    ensures
        filler_pattern("like"@) == r"(?i)\blike\b[,]?\s*"@,
{
    reveal_strlit("like");
    reveal_strlit(r"(?i)\blike\b[,]?\s*");
    reveal_strlit(r"(?i)\b");
    reveal_strlit(r"\b[,]?\s*");
    assert(plain_from("like"@, 0)) by { reveal_with_fuel(plain_from, 6); }
    lemma_plain_filler_pattern("like"@);
    assert(r"(?i)\b"@ + "like"@ + r"\b[,]?\s*"@ =~= r"(?i)\blike\b[,]?\s*"@);
}

/// The pattern of the filler "right".
proof fn lemma_filler_pattern_13()
    ensures
        filler_pattern("right"@) == r"(?i)\bright\b[,]?\s*"@,
{
    reveal_strlit("right");
    reveal_strlit(r"(?i)\bright\b[,]?\s*");
    reveal_strlit(r"(?i)\b");
    reveal_strlit(r"\b[,]?\s*");
    assert(plain_from("right"@, 0)) by { reveal_with_fuel(plain_from, 7); }
    lemma_plain_filler_pattern("right"@);
    assert(r"(?i)\b"@ + "right"@ + r"\b[,]?\s*"@ =~= r"(?i)\bright\b[,]?\s*"@);
}

/// The pattern of the filler "well".
proof fn lemma_filler_pattern_14()
    ensures
        filler_pattern("well"@) == r"(?i)\bwell\b[,]?\s*"@,
{
    reveal_strlit("well");
    reveal_strlit(r"(?i)\bwell\b[,]?\s*");
    reveal_strlit(r"(?i)\b");
    reveal_strlit(r"\b[,]?\s*");
    assert(plain_from("well"@, 0)) by { reveal_with_fuel(plain_from, 6); }
    lemma_plain_filler_pattern("well"@);
    assert(r"(?i)\b"@ + "well"@ + r"\b[,]?\s*"@ =~= r"(?i)\bwell\b[,]?\s*"@);
}

/// The pattern of the filler "umm".
proof fn lemma_filler_pattern_15()
    ensures
        filler_pattern("umm"@) == r"(?i)\bumm\b[,]?\s*"@,
{
    reveal_strlit("umm");
    reveal_strlit(r"(?i)\bumm\b[,]?\s*");
    reveal_strlit(r"(?i)\b");
    reveal_strlit(r"\b[,]?\s*");
    assert(plain_from("umm"@, 0)) by { reveal_with_fuel(plain_from, 5); }
    lemma_plain_filler_pattern("umm"@);
    assert(r"(?i)\b"@ + "umm"@ + r"\b[,]?\s*"@ =~= r"(?i)\bumm\b[,]?\s*"@);
}

/// The pattern of the filler "uhh".
proof fn lemma_filler_pattern_16()
    ensures
        filler_pattern("uhh"@) == r"(?i)\buhh\b[,]?\s*"@,
{
    reveal_strlit("uhh");
    reveal_strlit(r"(?i)\buhh\b[,]?\s*");
    reveal_strlit(r"(?i)\b");
    reveal_strlit(r"\b[,]?\s*");
    assert(plain_from("uhh"@, 0)) by { reveal_with_fuel(plain_from, 5); }
    lemma_plain_filler_pattern("uhh"@);
    assert(r"(?i)\b"@ + "uhh"@ + r"\b[,]?\s*"@ =~= r"(?i)\buhh\b[,]?\s*"@);
}

/// The pattern of the filler "hmm".
proof fn lemma_filler_pattern_17()
    ensures
        filler_pattern("hmm"@) == r"(?i)\bhmm\b[,]?\s*"@,
{
    reveal_strlit("hmm");
    reveal_strlit(r"(?i)\bhmm\b[,]?\s*");
    reveal_strlit(r"(?i)\b");
    reveal_strlit(r"\b[,]?\s*");
    assert(plain_from("hmm"@, 0)) by { reveal_with_fuel(plain_from, 5); }
    lemma_plain_filler_pattern("hmm"@);
    assert(r"(?i)\b"@ + "hmm"@ + r"\b[,]?\s*"@ =~= r"(?i)\bhmm\b[,]?\s*"@);
}

/// The pattern of the filler "um".
proof fn lemma_filler_pattern_18()
    ensures
        filler_pattern("um"@) == r"(?i)\bum\b[,]?\s*"@,
{
    reveal_strlit("um");
    reveal_strlit(r"(?i)\bum\b[,]?\s*");
    reveal_strlit(r"(?i)\b");
    reveal_strlit(r"\b[,]?\s*");
    assert(plain_from("um"@, 0)) by { reveal_with_fuel(plain_from, 4); }
    lemma_plain_filler_pattern("um"@);
    assert(r"(?i)\b"@ + "um"@ + r"\b[,]?\s*"@ =~= r"(?i)\bum\b[,]?\s*"@);
}

/// The pattern of the filler "uh".
proof fn lemma_filler_pattern_19()
    ensures
        filler_pattern("uh"@) == r"(?i)\buh\b[,]?\s*"@,
{
    reveal_strlit("uh");
    reveal_strlit(r"(?i)\buh\b[,]?\s*");
    reveal_strlit(r"(?i)\b");
    reveal_strlit(r"\b[,]?\s*");
    assert(plain_from("uh"@, 0)) by { reveal_with_fuel(plain_from, 4); }
    lemma_plain_filler_pattern("uh"@);
    assert(r"(?i)\b"@ + "uh"@ + r"\b[,]?\s*"@ =~= r"(?i)\buh\b[,]?\s*"@);
}

/// The pattern of the filler "hm".
proof fn lemma_filler_pattern_20()
    ensures
        filler_pattern("hm"@) == r"(?i)\bhm\b[,]?\s*"@,
{
    reveal_strlit("hm");
    reveal_strlit(r"(?i)\bhm\b[,]?\s*");
    reveal_strlit(r"(?i)\b");
    reveal_strlit(r"\b[,]?\s*");
    assert(plain_from("hm"@, 0)) by { reveal_with_fuel(plain_from, 4); }
    lemma_plain_filler_pattern("hm"@);
    assert(r"(?i)\b"@ + "hm"@ + r"\b[,]?\s*"@ =~= r"(?i)\bhm\b[,]?\s*"@);
}

/// The filler rules, written out.
proof fn lemma_filler_rules()
    ensures
        filler_rules() == seq![
            (r"(?i)\byou know what I mean\b[,]?\s*"@, ""@),
            (r"(?i)\byou know\b[,]?\s*"@, ""@),
            (r"(?i)\bI mean\b[,]?\s*"@, ""@),
            (r"(?i)\bokay so\b[,]?\s*"@, ""@),
            (r"(?i)\bso yeah\b[,]?\s*"@, ""@),
            (r"(?i)\bsort of\b[,]?\s*"@, ""@),
            (r"(?i)\bkind of\b[,]?\s*"@, ""@),
            (r"(?i)\bI guess\b[,]?\s*"@, ""@),
            (r"(?i)\buh huh\b[,]?\s*"@, ""@),
            (r"(?i)\bbasically\b[,]?\s*"@, ""@),
            (r"(?i)\bliterally\b[,]?\s*"@, ""@),
            (r"(?i)\bactually\b[,]?\s*"@, ""@),
            (r"(?i)\blike\b[,]?\s*"@, ""@),
            (r"(?i)\bright\b[,]?\s*"@, ""@),
            (r"(?i)\bwell\b[,]?\s*"@, ""@),
            (r"(?i)\bumm\b[,]?\s*"@, ""@),
            (r"(?i)\buhh\b[,]?\s*"@, ""@),
            (r"(?i)\bhmm\b[,]?\s*"@, ""@),
            (r"(?i)\bum\b[,]?\s*"@, ""@),
            (r"(?i)\buh\b[,]?\s*"@, ""@),
            (r"(?i)\bhm\b[,]?\s*"@, ""@)
        ],
{
    lemma_filler_pattern_0();
    lemma_filler_pattern_1();
    lemma_filler_pattern_2();
    lemma_filler_pattern_3();
    lemma_filler_pattern_4();
    lemma_filler_pattern_5();
    lemma_filler_pattern_6();
    lemma_filler_pattern_7();
    lemma_filler_pattern_8();
    lemma_filler_pattern_9();
    lemma_filler_pattern_10();
    lemma_filler_pattern_11();
    lemma_filler_pattern_12();
    lemma_filler_pattern_13();
    lemma_filler_pattern_14();
    lemma_filler_pattern_15();
    lemma_filler_pattern_16();
    lemma_filler_pattern_17();
    lemma_filler_pattern_18();
    lemma_filler_pattern_19();
    lemma_filler_pattern_20();
    reveal_strlit("");
    assert(""@ =~= Seq::<char>::empty());
    assert(filler_rules() =~= seq![
            (r"(?i)\byou know what I mean\b[,]?\s*"@, ""@),
            (r"(?i)\byou know\b[,]?\s*"@, ""@),
            (r"(?i)\bI mean\b[,]?\s*"@, ""@),
            (r"(?i)\bokay so\b[,]?\s*"@, ""@),
            (r"(?i)\bso yeah\b[,]?\s*"@, ""@),
            (r"(?i)\bsort of\b[,]?\s*"@, ""@),
            (r"(?i)\bkind of\b[,]?\s*"@, ""@),
            (r"(?i)\bI guess\b[,]?\s*"@, ""@),
            (r"(?i)\buh huh\b[,]?\s*"@, ""@),
            (r"(?i)\bbasically\b[,]?\s*"@, ""@),
            (r"(?i)\bliterally\b[,]?\s*"@, ""@),
            (r"(?i)\bactually\b[,]?\s*"@, ""@),
            (r"(?i)\blike\b[,]?\s*"@, ""@),
            (r"(?i)\bright\b[,]?\s*"@, ""@),
            (r"(?i)\bwell\b[,]?\s*"@, ""@),
            (r"(?i)\bumm\b[,]?\s*"@, ""@),
            (r"(?i)\buhh\b[,]?\s*"@, ""@),
            (r"(?i)\bhmm\b[,]?\s*"@, ""@),
            (r"(?i)\bum\b[,]?\s*"@, ""@),
            (r"(?i)\buh\b[,]?\s*"@, ""@),
            (r"(?i)\bhm\b[,]?\s*"@, ""@)
        ]);
}

/// Filler removal: each of the filler phrases below is removed, in this
/// order (longest first), as a whole word in any case, together with one
/// comma right after it and the whitespace that follows; then runs of
/// whitespace become one space, the space before "." and before "," goes,
/// the ends are trimmed and a lowercase first letter is uppercased.
pub proof fn law_fillers_removed(text: Seq<char>)
    ensures
        without_fillers(text) == ({
            let t = replaced(text, r"(?i)\byou know what I mean\b[,]?\s*"@, ""@);
            let t = replaced(t, r"(?i)\byou know\b[,]?\s*"@, ""@);
            let t = replaced(t, r"(?i)\bI mean\b[,]?\s*"@, ""@);
            let t = replaced(t, r"(?i)\bokay so\b[,]?\s*"@, ""@);
            let t = replaced(t, r"(?i)\bso yeah\b[,]?\s*"@, ""@);
            let t = replaced(t, r"(?i)\bsort of\b[,]?\s*"@, ""@);
            let t = replaced(t, r"(?i)\bkind of\b[,]?\s*"@, ""@);
            let t = replaced(t, r"(?i)\bI guess\b[,]?\s*"@, ""@);
            let t = replaced(t, r"(?i)\buh huh\b[,]?\s*"@, ""@);
            let t = replaced(t, r"(?i)\bbasically\b[,]?\s*"@, ""@);
            let t = replaced(t, r"(?i)\bliterally\b[,]?\s*"@, ""@);
            let t = replaced(t, r"(?i)\bactually\b[,]?\s*"@, ""@);
            let t = replaced(t, r"(?i)\blike\b[,]?\s*"@, ""@);
            let t = replaced(t, r"(?i)\bright\b[,]?\s*"@, ""@);
            let t = replaced(t, r"(?i)\bwell\b[,]?\s*"@, ""@);
            let t = replaced(t, r"(?i)\bumm\b[,]?\s*"@, ""@);
            let t = replaced(t, r"(?i)\buhh\b[,]?\s*"@, ""@);
            let t = replaced(t, r"(?i)\bhmm\b[,]?\s*"@, ""@);
            let t = replaced(t, r"(?i)\bum\b[,]?\s*"@, ""@);
            let t = replaced(t, r"(?i)\buh\b[,]?\s*"@, ""@);
            let t = replaced(t, r"(?i)\bhm\b[,]?\s*"@, ""@);
            let t = replaced(t, r"\s{2,}"@, " "@);
            capitalized(trim(tighten(tighten(t, '.'), ',')))
        }),
{
    lemma_filler_rules();
    let r = filler_rules();
    assert(r.take(0) =~= Seq::<(Seq<char>, Seq<char>)>::empty());
    let t0 = text;
    assert(apply_rules(text, r.take(0)) == t0);
    let t1 = replaced(t0, r"(?i)\byou know what I mean\b[,]?\s*"@, ""@);
    assert(apply_rules(text, r.take(1)) == t1) by {
        assert(r.take(1).drop_last() =~= r.take(0));
        assert(r.take(1).last() == r[0]);
    }
    let t2 = replaced(t1, r"(?i)\byou know\b[,]?\s*"@, ""@);
    assert(apply_rules(text, r.take(2)) == t2) by {
        assert(r.take(2).drop_last() =~= r.take(1));
        assert(r.take(2).last() == r[1]);
    }
    let t3 = replaced(t2, r"(?i)\bI mean\b[,]?\s*"@, ""@);
    assert(apply_rules(text, r.take(3)) == t3) by {
        assert(r.take(3).drop_last() =~= r.take(2));
        assert(r.take(3).last() == r[2]);
    }
    let t4 = replaced(t3, r"(?i)\bokay so\b[,]?\s*"@, ""@);
    assert(apply_rules(text, r.take(4)) == t4) by {
        assert(r.take(4).drop_last() =~= r.take(3));
        assert(r.take(4).last() == r[3]);
    }
    let t5 = replaced(t4, r"(?i)\bso yeah\b[,]?\s*"@, ""@);
    assert(apply_rules(text, r.take(5)) == t5) by {
        assert(r.take(5).drop_last() =~= r.take(4));
        assert(r.take(5).last() == r[4]);
    }
    let t6 = replaced(t5, r"(?i)\bsort of\b[,]?\s*"@, ""@);
    assert(apply_rules(text, r.take(6)) == t6) by {
        assert(r.take(6).drop_last() =~= r.take(5));
        assert(r.take(6).last() == r[5]);
    }
    let t7 = replaced(t6, r"(?i)\bkind of\b[,]?\s*"@, ""@);
    assert(apply_rules(text, r.take(7)) == t7) by {
        assert(r.take(7).drop_last() =~= r.take(6));
        assert(r.take(7).last() == r[6]);
    }
    let t8 = replaced(t7, r"(?i)\bI guess\b[,]?\s*"@, ""@);
    assert(apply_rules(text, r.take(8)) == t8) by {
        assert(r.take(8).drop_last() =~= r.take(7));
        assert(r.take(8).last() == r[7]);
    }
    let t9 = replaced(t8, r"(?i)\buh huh\b[,]?\s*"@, ""@);
    assert(apply_rules(text, r.take(9)) == t9) by {
        assert(r.take(9).drop_last() =~= r.take(8));
        assert(r.take(9).last() == r[8]);
    }
    let t10 = replaced(t9, r"(?i)\bbasically\b[,]?\s*"@, ""@);
    assert(apply_rules(text, r.take(10)) == t10) by {
        assert(r.take(10).drop_last() =~= r.take(9));
        assert(r.take(10).last() == r[9]);
    }
    let t11 = replaced(t10, r"(?i)\bliterally\b[,]?\s*"@, ""@);
    assert(apply_rules(text, r.take(11)) == t11) by {
        assert(r.take(11).drop_last() =~= r.take(10));
        assert(r.take(11).last() == r[10]);
    }
    let t12 = replaced(t11, r"(?i)\bactually\b[,]?\s*"@, ""@);
    assert(apply_rules(text, r.take(12)) == t12) by {
        assert(r.take(12).drop_last() =~= r.take(11));
        assert(r.take(12).last() == r[11]);
    }
    let t13 = replaced(t12, r"(?i)\blike\b[,]?\s*"@, ""@);
    assert(apply_rules(text, r.take(13)) == t13) by {
        assert(r.take(13).drop_last() =~= r.take(12));
        assert(r.take(13).last() == r[12]);
    }
    let t14 = replaced(t13, r"(?i)\bright\b[,]?\s*"@, ""@);
    assert(apply_rules(text, r.take(14)) == t14) by {
        assert(r.take(14).drop_last() =~= r.take(13));
        assert(r.take(14).last() == r[13]);
    }
    let t15 = replaced(t14, r"(?i)\bwell\b[,]?\s*"@, ""@);
    assert(apply_rules(text, r.take(15)) == t15) by {
        assert(r.take(15).drop_last() =~= r.take(14));
        assert(r.take(15).last() == r[14]);
    }
    let t16 = replaced(t15, r"(?i)\bumm\b[,]?\s*"@, ""@);
    assert(apply_rules(text, r.take(16)) == t16) by {
        assert(r.take(16).drop_last() =~= r.take(15));
        assert(r.take(16).last() == r[15]);
    }
    let t17 = replaced(t16, r"(?i)\buhh\b[,]?\s*"@, ""@);
    assert(apply_rules(text, r.take(17)) == t17) by {
        assert(r.take(17).drop_last() =~= r.take(16));
        assert(r.take(17).last() == r[16]);
    }
    let t18 = replaced(t17, r"(?i)\bhmm\b[,]?\s*"@, ""@);
    assert(apply_rules(text, r.take(18)) == t18) by {
        assert(r.take(18).drop_last() =~= r.take(17));
        assert(r.take(18).last() == r[17]);
    }
    let t19 = replaced(t18, r"(?i)\bum\b[,]?\s*"@, ""@);
    assert(apply_rules(text, r.take(19)) == t19) by {
        assert(r.take(19).drop_last() =~= r.take(18));
        assert(r.take(19).last() == r[18]);
    }
    let t20 = replaced(t19, r"(?i)\buh\b[,]?\s*"@, ""@);
    assert(apply_rules(text, r.take(20)) == t20) by {
        assert(r.take(20).drop_last() =~= r.take(19));
        assert(r.take(20).last() == r[19]);
    }
    let t21 = replaced(t20, r"(?i)\bhm\b[,]?\s*"@, ""@);
    assert(apply_rules(text, r.take(21)) == t21) by {
        assert(r.take(21).drop_last() =~= r.take(20));
        assert(r.take(21).last() == r[20]);
    }
    assert(r.take(21) =~= r);
    assert(space_rules().drop_last() =~= Seq::<(Seq<char>, Seq<char>)>::empty());
    reveal_with_fuel(apply_rules, 2);
}

/// Whether `s` begins with `p`.
pub open spec fn begins_with(s: Seq<char>, p: Seq<char>) -> bool {
    p.len() <= s.len() && s.take(p.len() as int) == p
}

/// Removing preambles none of which begins the text leaves it as it is.
proof fn lemma_strip_none(s: Seq<char>, ps: Seq<Seq<char>>)
    requires
        forall|j: int| 0 <= j < ps.len() ==> !begins_with(s, #[trigger] ps[j]),
    ensures
        strip_preambles(s, ps) == s,
    decreases ps.len(),
{
    if ps.len() > 0 {
        let d = ps.drop_last();
        assert forall|j: int| 0 <= j < d.len() implies !begins_with(s, #[trigger] d[j]) by {
            assert(d[j] == ps[j]);
        }
        lemma_strip_none(s, d);
        assert(!begins_with(s, ps[ps.len() - 1]));
    }
}

/// Removing the preambles of `a` then of `b` is removing those of `a + b`.
proof fn lemma_strip_split(s: Seq<char>, a: Seq<Seq<char>>, b: Seq<Seq<char>>)
    ensures
        strip_preambles(s, a + b) == strip_preambles(strip_preambles(s, a), b),
    decreases b.len(),
{
    if b.len() == 0 {
        assert(a + b =~= a);
    } else {
        lemma_strip_split(s, a, b.drop_last());
        assert((a + b).drop_last() =~= a + b.drop_last());
        assert((a + b).last() == b.last());
    }
}

/// No preamble of the list begins a reply that begins with a later one.
proof fn lemma_preambles_apart(j: int, k: int, t: Seq<char>)
    requires
        0 <= j < k < 7,
    ensures
        !begins_with(preambles()[k] + t, preambles()[j]),
{
    reveal_strlit("Here is the revised version:");
    reveal_strlit("Here is the cleaned version:");
    reveal_strlit("Here is the rewritten text:");
    reveal_strlit("Here's the cleaned text:");
    reveal_strlit("Cleaned text:");
    reveal_strlit("Revised:");
    reveal_strlit("Output:");
    let pre = preambles();
    // A position where the two preambles differ.
    let d: int = if j == 0 && k == 1 {
        12
    } else if j == 0 && k == 2 {
        14
    } else if j == 1 && k == 2 {
        12
    } else if j == 0 && k == 3 {
        4
    } else if j == 1 && k == 3 {
        4
    } else if j == 2 && k == 3 {
        4
    } else if j == 0 && k == 4 {
        0
    } else if j == 1 && k == 4 {
        0
    } else if j == 2 && k == 4 {
        0
    } else if j == 3 && k == 4 {
        0
    } else if j == 0 && k == 5 {
        0
    } else if j == 1 && k == 5 {
        0
    } else if j == 2 && k == 5 {
        0
    } else if j == 3 && k == 5 {
        0
    } else if j == 4 && k == 5 {
        0
    } else if j == 0 && k == 6 {
        0
    } else if j == 1 && k == 6 {
        0
    } else if j == 2 && k == 6 {
        0
    } else if j == 3 && k == 6 {
        0
    } else if j == 4 && k == 6 {
        0
    } else {
        0
    };
    assert(d < pre[j].len() && d < pre[k].len() && pre[j][d] != pre[k][d]);
    let c = pre[k] + t;
    if begins_with(c, pre[j]) {
        assert(c.take(pre[j].len() as int)[d] == c[d]);
        assert(c[d] == pre[k][d]);
    }
}

/// Each preamble of the list below is removed from the start of a model
/// reply, together with the whitespace after it: a reply made of one of
/// them, a space and a text that has no whitespace at either end, is not
/// empty, begins with none of them and does not begin with a double quote,
/// gives that text.
pub proof fn law_preambles_removed(k: int, x: Seq<char>)
    requires
        0 <= k < 7,
        x.len() > 0,
        !is_ws(x[0]),
        !is_ws(x.last()),
        x[0] != '"',
        !begins_with(x, "Here is the revised version:"@),
        !begins_with(x, "Here is the cleaned version:"@),
        !begins_with(x, "Here is the rewritten text:"@),
        !begins_with(x, "Here's the cleaned text:"@),
        !begins_with(x, "Cleaned text:"@),
        !begins_with(x, "Revised:"@),
        !begins_with(x, "Output:"@),
    ensures
        reply_text(seq![
            "Here is the revised version:"@,
            "Here is the cleaned version:"@,
            "Here is the rewritten text:"@,
            "Here's the cleaned text:"@,
            "Cleaned text:"@,
            "Revised:"@,
            "Output:"@,
        ][k] + " "@ + x) == Some(x),
{
    reveal_strlit("Here is the revised version:");
    reveal_strlit("Here is the cleaned version:");
    reveal_strlit("Here is the rewritten text:");
    reveal_strlit("Here's the cleaned text:");
    reveal_strlit("Cleaned text:");
    reveal_strlit("Revised:");
    reveal_strlit("Output:");
    reveal_strlit(" ");
    let pre = preambles();
    assert(pre == seq![
        "Here is the revised version:"@,
        "Here is the cleaned version:"@,
        "Here is the rewritten text:"@,
        "Here's the cleaned text:"@,
        "Cleaned text:"@,
        "Revised:"@,
        "Output:"@,
    ]);
    let p = pre[k];
    let t = " "@ + x;
    let c = p + " "@ + x;
    assert(c =~= p + t);
    assert(c[0] == p[0]);
    assert(trim_start(c) == c);
    assert(c.last() == x.last());
    assert(trim(c) == c);
    assert forall|j: int| 0 <= j < pre.take(k).len() implies !begins_with(c, #[trigger] pre.take(k)[j]) by {
        lemma_preambles_apart(j, k, t);
    }
    lemma_strip_none(c, pre.take(k));
    let one = seq![p];
    assert(one.drop_last() =~= Seq::<Seq<char>>::empty());
    assert(c.take(p.len() as int) =~= p);
    assert(c.skip(p.len() as int) =~= t);
    assert(t.drop_first() =~= x);
    assert(strip_preambles(c, one.drop_last()) == c);
    assert(t[0] == ' ');
    assert(is_ws(t[0]));
    assert(trim_start(t) == trim_start(x));
    assert(trim_start(x) == x);
    assert(trim(t) == x);
    assert(one.last() == p);
    assert(strip_preambles(c, one) == x);
    let rest = pre.skip(k + 1);
    assert forall|j: int| 0 <= j < rest.len() implies !begins_with(x, #[trigger] rest[j]) by {
        assert(rest[j] == pre[k + 1 + j]);
        assert(0 <= k + 1 + j < 7);
    }
    lemma_strip_none(x, rest);
    lemma_strip_split(c, pre.take(k), one);
    lemma_strip_split(c, pre.take(k) + one, rest);
    assert(pre.take(k) + one + rest =~= pre);
}

/// A reply is trimmed, then each preamble of the list below is removed in
/// this order where it begins what is left (the rest trimmed again), then
/// surrounding double quotes go: so a preamble that comes after a later
/// one in the list stays.
pub proof fn law_preambles_in_order(content: Seq<char>)
    ensures
        reply_text(content) == ({
            let body = strip_preambles(
                trim(content),
                seq![
                "Here is the revised version:"@,
                "Here is the cleaned version:"@,
                "Here is the rewritten text:"@,
                "Here's the cleaned text:"@,
                "Cleaned text:"@,
                "Revised:"@,
                "Output:"@,
            ],
            );
            let r = if body.len() >= 2 && body[0] == '"' && body.last() == '"' {
                body.subrange(1, body.len() - 1)
            } else {
                body
            };
            if r.len() == 0 {
                None
            } else {
                Some(r)
            }
        }),
{
}

/// A reply wrapped in double quotes gives what is between them, as it is,
/// and nothing when that is empty.
pub proof fn law_quotes_removed(x: Seq<char>)
    ensures
        reply_text(seq!['"'] + x + seq!['"']) == if x.len() > 0 {
            Some(x)
        } else {
            None::<Seq<char>>
        },
{
    reveal_strlit("Here is the revised version:");
    reveal_strlit("Here is the cleaned version:");
    reveal_strlit("Here is the rewritten text:");
    reveal_strlit("Here's the cleaned text:");
    reveal_strlit("Cleaned text:");
    reveal_strlit("Revised:");
    reveal_strlit("Output:");
    let c = seq!['"'] + x + seq!['"'];
    let pre = preambles();
    assert(c[0] == '"' && c.last() == '"');
    assert(trim_start(c) == c);
    assert(trim(c) == c);
    assert forall|j: int| 0 <= j < pre.len() implies !begins_with(c, #[trigger] pre[j]) by {
        assert(pre[j][0] != '"');
        if begins_with(c, pre[j]) {
            assert(c.take(pre[j].len() as int)[0] == c[0]);
        }
    }
    lemma_strip_none(c, pre);
    assert(c.subrange(1, c.len() - 1) =~= x);
}

/// What a rewrite by the model gives for the transcript `raw` when the
/// model answers `reply`: nothing when only fillers and punctuation were
/// said (the model is then not asked), else the model's text when it gave a
/// non-empty one, else the rule-cleaned text. `refine_rules_only` takes the
/// first step, `refine_with_reply` the last.
pub open spec fn model_rewrite(raw: Seq<char>, reply: Option<Seq<char>>) -> Option<Seq<char>> {
    match rules_only(raw) {
        None => None,
        Some(cleaned) => Some(refined_with(cleaned, reply)),
    }
}

/// Whatever the model answers, a rewrite by the model gives nothing exactly
/// when rule-based cleanup gives nothing, and what it gives is never empty.
pub proof fn law_rewrite_skips_what_cleanup_skips(raw: Seq<char>, reply: Option<Seq<char>>)
    ensures
        model_rewrite(raw, reply) is None <==> rules_only(raw) is None,
        model_rewrite(raw, reply) matches Some(t) ==> t.len() > 0,
{
    if let Some(cleaned) = rules_only(raw) {
        if cleaned.len() == 0 {
            assert(without_char(cleaned, '.') =~= cleaned);
            assert(without_char(without_char(cleaned, '.'), ',') =~= cleaned);
            assert(bare_words(cleaned).len() == 0);
        }
    }
}

/// What one replacement does: every match of `pattern` replaced by `rep`
/// when the pattern compiles, the text unchanged when it does not.
pub open spec fn replaced(text: Seq<char>, pattern: Seq<char>, rep: Seq<char>) -> Seq<char> {
    if regex_compiles(pattern) {
        regex_replace_all(pattern, text, rep)
    } else {
        text
    }
}

/// Dictation commands, spoken in any case, become their characters in this
/// order: "new paragraph(s)" two line breaks; "newline(s)" and
/// "new line(s)" a line break; "question mark(s)" "?"; "exclamation
/// point/mark(s)" "!"; "open parenthesis" and "open paren" "("; "close
/// parenthesis" and "close paren" ")"; "period" "."; "semicolon(s)" ";";
/// "colon(s)" ":". Then the spaces and tabs before ". , ! ? ; : )" and after
/// "(" go, those around a line break go, and the ends are trimmed.
pub proof fn law_dictation_commands(text: Seq<char>)
    ensures
        with_commands(text) == ({
            let t = replaced(text, r"(?i)\bnew paragraphs?\b"@, "\n\n"@);
            let t = replaced(t, r"(?i)\bnewlines?\b"@, "\n"@);
            let t = replaced(t, r"(?i)\bnew lines?\b"@, "\n"@);
            let t = replaced(t, r"(?i)\bquestion marks?\b"@, "?"@);
            let t = replaced(t, r"(?i)\bexclamation (point|mark)s?\b"@, "!"@);
            let t = replaced(t, r"(?i)\bopen parenthesis\b"@, "("@);
            let t = replaced(t, r"(?i)\bclose parenthesis\b"@, ")"@);
            let t = replaced(t, r"(?i)\bopen paren\b"@, "("@);
            let t = replaced(t, r"(?i)\bclose paren\b"@, ")"@);
            let t = replaced(t, r"(?i)\bperiod\b"@, "."@);
            let t = replaced(t, r"(?i)\bsemicolons?\b"@, ";"@);
            let t = replaced(t, r"(?i)\bcolons?\b"@, ":"@);
            let t = replaced(t, r"[ \t]+([.,!?;:)])"@, "$1"@);
            let t = replaced(t, r"(\()[ \t]+"@, "$1"@);
            let t = replaced(t, r"[ \t]*\n[ \t]*"@, "\n"@);
            trim(t)
        }),
{
    reveal_with_fuel(apply_rules, 13);
    let c = command_rules();
    assert(c.drop_last().drop_last().drop_last().drop_last().drop_last().drop_last().drop_last().drop_last().drop_last().drop_last().drop_last().drop_last() =~= Seq::<(Seq<char>, Seq<char>)>::empty());
    let sr = spacing_rules();
    assert(sr.drop_last().drop_last().drop_last() =~= Seq::<(Seq<char>, Seq<char>)>::empty());
}

/// Dictated text comes out trimmed: the result of `apply_commands` has no
/// whitespace at either end, so applying a trim to it changes nothing.
pub proof fn law_commands_output_is_trimmed(text: Seq<char>)
    ensures
        trim(with_commands(text)) == with_commands(text),
        with_commands(text).len() == 0 || (!is_ws(with_commands(text)[0]) && !is_ws(
            with_commands(text).last(),
        )),
{
    lemma_trim_idempotent(apply_rules(apply_rules(text, command_rules()), spacing_rules()));
}

// ---------------------------------------------------------------------------
// The local model server

/// The local port of the rewrite model server.
pub const SERVER_PORT: u16 = 8231;

/// "http://127.0.0.1:" and the port.
pub open spec fn local_base(port: u16) -> Seq<char> {
    "http://127.0.0.1:"@ + decimal(port as nat)
}

fn local_base_of(port: u16) -> (r: String)
    ensures
        r@ == local_base(port),
{
    let mut r = "http://127.0.0.1:".to_owned();
    let p = decimal_string(port as u64);
    append_str(&mut r, p.as_str());
    r
}

/// The chat completions endpoint of the server on `port`.
pub fn completions_url(port: u16) -> (r: String)
    ensures
        r@ == local_base(port) + "/v1/chat/completions"@,
{
    let mut r = local_base_of(port);
    append_str(&mut r, "/v1/chat/completions");
    r
}

/// The health endpoint of the server on `port`.
pub fn health_url(port: u16) -> (r: String)
    ensures
        r@ == local_base(port) + "/health"@,
{
    let mut r = local_base_of(port);
    append_str(&mut r, "/health");
    r
}

/// The process pattern that matches a leftover server on `port`.
pub fn leftover_server_pattern(port: u16) -> (r: String)
    ensures
        r@ == "llama-server.*--port "@ + decimal(port as nat),
{
    let mut r = "llama-server.*--port ".to_owned();
    let p = decimal_string(port as u64);
    append_str(&mut r, p.as_str());
    r
}

/// The arguments that start the server on `model_path`: a small context,
/// every layer on the GPU, the given port, flash attention, no log.
pub open spec fn server_args_for(model_path: Seq<char>, port: u16) -> Seq<Seq<char>> {
    seq![
        "-m"@, model_path, "--ctx-size"@, "256"@, "-ngl"@, "99"@, "--port"@, decimal(port as nat),
        "--flash-attn"@, "on"@, "--log-disable"@,
    ]
}

/// The server's command line arguments.
pub fn server_args(model_path: &str, port: u16) -> (r: Vec<String>)
    ensures
        r@.map_values(|a: String| a@) == server_args_for(model_path@, port),
{
    let mut r: Vec<String> = Vec::new();
    r.push("-m".to_owned());
    r.push(model_path.to_owned());
    r.push("--ctx-size".to_owned());
    r.push("256".to_owned());
    r.push("-ngl".to_owned());
    r.push("99".to_owned());
    r.push("--port".to_owned());
    r.push(decimal_string(port as u64));
    r.push("--flash-attn".to_owned());
    r.push("on".to_owned());
    r.push("--log-disable".to_owned());
    assert(r@.map_values(|a: String| a@) =~= server_args_for(model_path@, port));
    r
}

/// Whether `s` contains `t` at some position.
pub open spec fn contains_text(s: Seq<char>, t: Seq<char>) -> bool {
    exists|i: int| 0 <= i && i + t.len() <= s.len() && #[trigger] s.subrange(i, i + t.len()) == t
}

/// Whether a health reply says the server is ready (contains "ok").
pub fn server_ready(reply: &str) -> (b: bool)
    ensures
        b == contains_text(reply@, "ok"@),
{
    proof {
        reveal_strlit("ok");
    }
    let ghost ok = "ok"@;
    assert(ok =~= seq!['o', 'k']);
    let v = chars_of(reply);
    let n = v.len();
    let mut i: usize = 0;
    while i < n
        invariant
            n == v@.len(),
            v@ == reply@,
            ok == "ok"@,
            ok == seq!['o', 'k'],
            i <= n,
            forall|j: int|
                0 <= j < i && j + ok.len() <= n ==> #[trigger] v@.subrange(j, j + ok.len()) != ok,
        decreases n - i,
    {
        if i + 1 < n && v[i] == 'o' && v[i + 1] == 'k' {
            assert(v@.subrange(i as int, i + 2) =~= ok);
            return true;
        }
        if i + 1 < n {
            assert(v@.subrange(i as int, i + 2)[0] == v@[i as int]);
            assert(v@.subrange(i as int, i + 2)[1] == v@[i + 1]);
        }
        i += 1;
    }
    assert forall|j: int| 0 <= j && j + ok.len() <= reply@.len() implies #[trigger] reply@.subrange(
        j,
        j + ok.len(),
    ) != ok by {
        assert(j < i);
    }
    false
}

/// How many times the health endpoint is asked before the server is given up.
pub const HEALTH_POLLS: u32 = 60;

/// The wait before each health poll, in milliseconds.
pub const HEALTH_POLL_INTERVAL_MS: u64 = 500;

/// What to do after a health poll.
#[derive(Debug, PartialEq, Eq, Structural, Clone, Copy)]
pub enum ServerPoll {
    /// The server answered that it is ready.
    Ready,
    /// Not ready yet: wait and poll again.
    PollAgain,
    /// Every poll has been made: the server failed to start.
    GiveUp,
}

/// The step after poll number `attempt` (counted from 0), whose reply was
/// `reply` (`None` when the request or the reading of its body failed):
/// ready when the reply contains "ok", else another poll while fewer than
/// `HEALTH_POLLS` have been made, else give up.
pub open spec fn poll_outcome(attempt: nat, reply: Option<Seq<char>>) -> ServerPoll {
    if reply matches Some(r) && contains_text(r, "ok"@) {
        ServerPoll::Ready
    } else if attempt + 1 < HEALTH_POLLS {
        ServerPoll::PollAgain
    } else {
        ServerPoll::GiveUp
    }
}

/// Decides what follows a health poll of the starting server.
pub fn server_poll_step(attempt: u32, reply: Option<&str>) -> (p: ServerPoll)
    ensures
        p == poll_outcome(attempt as nat, opt_str_view(reply)),
{
    let ready = match reply {
        Some(r) => server_ready(r),
        None => false,
    };
    if ready {
        ServerPoll::Ready
    } else if attempt < HEALTH_POLLS - 1 {
        ServerPoll::PollAgain
    } else {
        ServerPoll::GiveUp
    }
}

/// The view of an optional string slice.
pub open spec fn opt_str_view(o: Option<&str>) -> Option<Seq<char>> {
    match o {
        Some(s) => Some(s@),
        None => None,
    }
}

/// A server that never answers "ok" is polled exactly `HEALTH_POLLS` times:
/// every poll before the last is followed by another, the last gives up;
/// and a reply with "ok" ends the wait at any poll.
pub proof fn law_server_wait_is_bounded(
    replies: Seq<Option<Seq<char>>>,
    attempt: nat,
    ready: Seq<char>,
)
    requires
        replies.len() == HEALTH_POLLS,
        forall|i: int|
            0 <= i < replies.len() ==> !(#[trigger] replies[i] matches Some(r) && contains_text(
                r,
                "ok"@,
            )),
        contains_text(ready, "ok"@),
    ensures
        forall|i: int|
            0 <= i < HEALTH_POLLS - 1 ==> poll_outcome(i as nat, #[trigger] replies[i])
                == ServerPoll::PollAgain,
        poll_outcome((HEALTH_POLLS - 1) as nat, replies[HEALTH_POLLS - 1]) == ServerPoll::GiveUp,
        poll_outcome(attempt, Some(ready)) == ServerPoll::Ready,
{
}

/// The names under which a bundled helper binary may sit next to the
/// executable: its own name, then with each target triple suffix.
pub open spec fn sidecar_names_for(name: Seq<char>) -> Seq<Seq<char>> {
    seq![
        name, name + "-aarch64-apple-darwin"@, name + "-x86_64-apple-darwin"@,
        name + "-x86_64-pc-windows-msvc"@,
    ]
}

/// File names to look for next to the executable, in order.
pub fn sidecar_names(name: &str) -> (r: Vec<String>)
    ensures
        r@.map_values(|a: String| a@) == sidecar_names_for(name@),
{
    let mut r: Vec<String> = Vec::new();
    r.push(name.to_owned());
    r.push(crate::text::concatenated(name, "-aarch64-apple-darwin"));
    r.push(crate::text::concatenated(name, "-x86_64-apple-darwin"));
    r.push(crate::text::concatenated(name, "-x86_64-pc-windows-msvc"));
    assert(r@.map_values(|a: String| a@) =~= sidecar_names_for(name@));
    r
}

/// Where a development build of a helper binary sits, relative to the
/// project directory.
pub fn vendor_binary_path(name: &str) -> (r: String)
    ensures
        r@ == "vendor/llama.cpp/build/bin/"@ + name@,
{
    crate::text::concatenated("vendor/llama.cpp/build/bin/", name)
}

/// The commands to try last, in order: the Homebrew locations, then the
/// bare name on the search path.
pub open spec fn fallback_commands_for(name: Seq<char>) -> Seq<Seq<char>> {
    seq!["/opt/homebrew/bin/"@ + name, "/usr/local/bin/"@ + name, name]
}

/// Commands to try when no bundled binary is found.
pub fn fallback_commands(name: &str) -> (r: Vec<String>)
    ensures
        r@.map_values(|a: String| a@) == fallback_commands_for(name@),
{
    let mut r: Vec<String> = Vec::new();
    r.push(crate::text::concatenated("/opt/homebrew/bin/", name));
    r.push(crate::text::concatenated("/usr/local/bin/", name));
    r.push(name.to_owned());
    assert(r@.map_values(|a: String| a@) =~= fallback_commands_for(name@));
    r
}

} // verus!
