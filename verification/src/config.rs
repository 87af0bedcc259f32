//! User settings, voice snippets and daily usage statistics.
use vstd::prelude::*;
use crate::text::{
    chars_equal, chars_of, decimal, decimal_string, lowercase_of, to_lowercase, trim, trim_str,
    without_char, without_char_chars, append_str, lemma_decimal_injective,
};

verus! {

broadcast use vstd::string::group_string_axioms;

/// A voice shortcut: saying `trigger` pastes `replacement`.
#[derive(Clone, Debug)]
pub struct Snippet {
    pub trigger: String,
    pub replacement: String,
}

/// Words and transcriptions counted for the day named by `date`.
#[derive(Clone, Debug)]
pub struct Stats {
    pub words_today: u32,
    pub transcriptions_today: u32,
    pub date: String,
}

impl Default for Stats {
    fn default() -> (s: Self)
        ensures
            s.words_today == 0,
            s.transcriptions_today == 0,
            s.date@ == Seq::<char>::empty(),
    {
        Stats { words_today: 0, transcriptions_today: 0, date: String::new() }
    }
}

/// The day label for a number of seconds since the Unix epoch: "day-"
/// followed by the number of whole days.
pub open spec fn day_label(secs: nat) -> Seq<char> {
    "day-"@ + decimal(secs / 86400)
}

/// Whether `s` is the label of some day.
pub open spec fn is_day_label(s: Seq<char>) -> bool {
    exists|secs: nat| s == day_label(secs)
}

/// The label of the day that `secs` seconds after the epoch falls in.
pub fn day_label_of(secs: u64) -> (r: String)
    ensures
        r@ == day_label(secs as nat),
{
    let mut r = "day-".to_owned();
    let days = decimal_string(secs / 86400);
    append_str(&mut r, days.as_str());
    r
}

/// Reads the system clock: seconds since the Unix epoch, `None` when the
/// clock is set before the epoch. The value depends on the time of the
/// call, so nothing is stated of it.
#[verifier::external_body]
fn unix_time_secs() -> (r: Option<u64>) {
    match std::time::SystemTime::now().duration_since(std::time::UNIX_EPOCH) {
        Ok(elapsed) => Some(elapsed.as_secs()),
        Err(_) => None,
    }
}

/// The label of today (by the system clock, in whole days since the
/// epoch); `None` when the clock reads before the epoch.
pub fn chrono_today() -> (r: Option<String>)
    ensures
        r matches Some(s) ==> is_day_label(s@),
{
    match unix_time_secs() {
        Some(secs) => {
            let label = day_label_of(secs);
            assert(label@ == day_label(secs as nat));
            Some(label)
        },
        None => None,
    }
}

/// The counts after recording `n` words on day `today`: a new day starts
/// from zero.
pub open spec fn recorded_words(s: Stats, n: u32, today: Seq<char>) -> int {
    if s.date@ == today {
        s.words_today + n
    } else {
        n as int
    }
}

/// The transcription count after recording one on day `today`.
pub open spec fn recorded_transcriptions(s: Stats, today: Seq<char>) -> int {
    if s.date@ == today {
        s.transcriptions_today + 1
    } else {
        1
    }
}

/// Whether recording `n` words on `today` keeps the counts within `u32`.
pub open spec fn can_record(s: Stats, n: u32, today: Seq<char>) -> bool {
    s.date@ == today ==> s.words_today + n <= u32::MAX && s.transcriptions_today < u32::MAX
}

impl Stats {
    /// Records a transcription of `word_count` words made on day `today`.
    pub fn record_on(&mut self, word_count: u32, today: &str)
        requires
            can_record(*old(self), word_count, today@),
        ensures
            final(self).date@ == today@,
            final(self).words_today == recorded_words(*old(self), word_count, today@),
            final(self).transcriptions_today == recorded_transcriptions(*old(self), today@),
    {
        let d = chars_of(self.date.as_str());
        let same = chars_equal(d.as_slice(), today);
        assert(same == (self.date@ == today@));
        if !same {
            self.words_today = 0;
            self.transcriptions_today = 0;
            self.date = today.to_owned();
        }
        self.words_today = self.words_today + word_count;
        self.transcriptions_today = self.transcriptions_today + 1;
    }

    /// Whether recording `word_count` words on `today` keeps the counts
    /// within `u32`.
    pub fn can_record_on(&self, word_count: u32, today: &str) -> (b: bool)
        ensures
            b == can_record(*self, word_count, today@),
    {
        let d = chars_of(self.date.as_str());
        if chars_equal(d.as_slice(), today) {
            self.words_today <= u32::MAX - word_count && self.transcriptions_today < u32::MAX
        } else {
            true
        }
    }

    /// Records a transcription of `word_count` words made now. When the
    /// clock reads before the epoch the day is taken to be unchanged. A
    /// transcription that would carry a count of the same day past
    /// `u32::MAX` is not recorded and leaves the statistics as they were.
    pub fn record(&mut self, word_count: u32)
        ensures
            final(self).date@ == old(self).date@ || is_day_label(final(self).date@),
            can_record(*old(self), word_count, final(self).date@) ==> {
                &&& final(self).words_today == recorded_words(*old(self), word_count, final(self).date@)
                &&& final(self).transcriptions_today == recorded_transcriptions(
                    *old(self),
                    final(self).date@,
                )
            },
            !can_record(*old(self), word_count, final(self).date@) ==> {
                &&& final(self).words_today == old(self).words_today
                &&& final(self).transcriptions_today == old(self).transcriptions_today
            },
    {
        let today = match chrono_today() {
            Some(t) => t,
            None => self.date.clone(),
        };
        if self.can_record_on(word_count, today.as_str()) {
            self.record_on(word_count, today.as_str());
        }
    }
}

/// The default whisper model.
pub fn default_whisper() -> (r: String)
    ensures
        r@ == "base.en"@,
{
    "base.en".to_owned()
}

/// The default refiner model.
pub fn default_refiner() -> (r: String)
    ensures
        r@ == "qwen2.5-1.5b-instruct-q4_k_m"@,
{
    "qwen2.5-1.5b-instruct-q4_k_m".to_owned()
}

/// The default transcription language.
pub fn default_lang() -> (r: String)
    ensures
        r@ == "en"@,
{
    "en".to_owned()
}

/// The default cap on a recording, in seconds.
pub fn default_max_record() -> (r: u32)
    ensures
        r == 30,
{
    30
}

/// The default refiner mode.
pub fn default_refiner_mode() -> (r: String)
    ensures
        r@ == "rewrite"@,
{
    "rewrite".to_owned()
}

/// The default rewrite tone.
pub fn default_tone() -> (r: String)
    ensures
        r@ == "normal"@,
{
    "normal".to_owned()
}

/// The default push-to-talk key.
pub fn default_hotkey() -> (r: String)
    ensures
        r@ == "Option"@,
{
    "Option".to_owned()
}

/// The default color theme.
pub fn default_theme() -> (r: String)
    ensures
        r@ == "dusk-sprinter"@,
{
    "dusk-sprinter".to_owned()
}

/// Dictation commands are on by default.
pub fn default_dictation() -> (r: bool)
    ensures
        r,
{
    true
}

/// The bit pattern (IEEE 754 binary64) of the default voice activity
/// threshold, an RMS level of 0.003.
pub const DEFAULT_VAD_THRESHOLD_BITS: u64 = 0x3f68_9374_bc6a_7efa;

/// The user's settings. The voice activity threshold, a binary64 number,
/// is held by its bit pattern.
#[derive(Clone, Debug)]
pub struct Config {
    pub whisper_model: String,
    pub refiner_model: String,
    pub language: String,
    pub vad_threshold_bits: u64,
    pub max_record_seconds: u32,
    pub use_refiner: bool,
    /// "off", "clean" or "rewrite".
    pub refiner_mode: String,
    /// "normal" or "formal".
    pub tone: String,
    pub hotkey: String,
    pub theme: String,
    pub first_run_complete: bool,
    pub dictation_enabled: bool,
    pub dictionary: Vec<String>,
    pub snippets: Vec<Snippet>,
    pub stats: Stats,
}

impl Default for Config {
    fn default() -> (c: Self)
        ensures
            c.whisper_model@ == "base.en"@,
            c.refiner_model@ == "qwen2.5-1.5b-instruct-q4_k_m"@,
            c.language@ == "en"@,
            c.vad_threshold_bits == DEFAULT_VAD_THRESHOLD_BITS,
            c.max_record_seconds == 30,
            c.use_refiner,
            c.refiner_mode@ == "rewrite"@,
            c.tone@ == "normal"@,
            c.hotkey@ == "Option"@,
            c.theme@ == "dusk-sprinter"@,
            !c.first_run_complete,
            c.dictation_enabled,
            c.dictionary@.len() == 0,
            c.snippets@.len() == 0,
            c.stats.words_today == 0,
            c.stats.transcriptions_today == 0,
            c.stats.date@ == Seq::<char>::empty(),
    {
        Config {
            whisper_model: default_whisper(),
            refiner_model: default_refiner(),
            language: default_lang(),
            vad_threshold_bits: DEFAULT_VAD_THRESHOLD_BITS,
            max_record_seconds: default_max_record(),
            use_refiner: true,
            refiner_mode: default_refiner_mode(),
            tone: default_tone(),
            hotkey: default_hotkey(),
            theme: default_theme(),
            first_run_complete: false,
            dictation_enabled: default_dictation(),
            dictionary: Vec::new(),
            snippets: Vec::new(),
            stats: Stats::default(),
        }
    }
}

/// The form in which an utterance is compared with snippet triggers:
/// trimmed, lowercased, without '.' and ','.
pub open spec fn snippet_key(text: Seq<char>) -> Seq<char> {
    without_char(without_char(lowercase_of(trim(text)), '.'), ',')
}

/// The replacement of the first snippet whose lowercased trigger equals
/// `key`.
pub open spec fn first_snippet(key: Seq<char>, snippets: Seq<Snippet>) -> Option<Seq<char>>
    decreases snippets.len(),
{
    if snippets.len() == 0 {
        None
    } else if key == lowercase_of(snippets[0].trigger@) {
        Some(snippets[0].replacement@)
    } else {
        first_snippet(key, snippets.drop_first())
    }
}

impl Config {
    /// The replacement of the first snippet that the utterance triggers
    /// (ignoring case, surrounding whitespace, '.' and ',').
    pub fn match_snippet(&self, text: &str) -> (r: Option<String>)
        ensures
            r is Some <==> first_snippet(snippet_key(text@), self.snippets@) is Some,
            r matches Some(s) ==> first_snippet(snippet_key(text@), self.snippets@) == Some(s@),
    {
        let t = trim_str(text);
        let lower = to_lowercase(t.as_str());
        let v = chars_of(lower.as_str());
        let v = without_char_chars(v.as_slice(), '.');
        let key = without_char_chars(v.as_slice(), ',');
        let ghost all = self.snippets@;
        let n = self.snippets.len();
        let mut i: usize = 0;
        assert(all.skip(0) =~= all);
        while i < n
            invariant
                n == all.len(),
                all == self.snippets@,
                key@ == snippet_key(text@),
                i <= n,
                first_snippet(key@, all) == first_snippet(key@, all.skip(i as int)),
            decreases n - i,
        {
            let s = &self.snippets[i];
            let trig = to_lowercase(s.trigger.as_str());
            let tv = chars_of(trig.as_str());
            assert(all.skip(i as int)[0] == all[i as int]);
            if same_chars(key.as_slice(), tv.as_slice()) {
                return Some(s.replacement.clone());
            }
            assert(all.skip(i as int).drop_first() =~= all.skip(i + 1));
            i += 1;
        }
        None
    }
}

/// Whether two character sequences are equal.
fn same_chars(a: &[char], b: &[char]) -> (r: bool)
    ensures
        r == (a@ == b@),
{
    if a.len() != b.len() {
        return false;
    }
    let n = a.len();
    let mut i: usize = 0;
    while i < n
        invariant
            n == a@.len(),
            n == b@.len(),
            i <= n,
            forall|k: int| 0 <= k < i ==> a@[k] == b@[k],
        decreases n - i,
    {
        if a[i] != b[i] {
            return false;
        }
        i += 1;
    }
    assert(a@ =~= b@);
    true
}

// ---------------------------------------------------------------------------
// Laws

/// Day labels tell days apart: two instants get the same label exactly when
/// they fall on the same day (counted in whole days since the epoch).
pub proof fn law_day_labels_detect_day_changes(s1: nat, s2: nat)
    ensures
        (day_label(s1) == day_label(s2)) <==> (s1 / 86400 == s2 / 86400),
{
    if day_label(s1) == day_label(s2) {
        let prefix = "day-"@;
        assert(day_label(s1).skip(prefix.len() as int) =~= decimal(s1 / 86400));
        assert(day_label(s2).skip(prefix.len() as int) =~= decimal(s2 / 86400));
        lemma_decimal_injective(s1 / 86400, s2 / 86400);
    }
}

/// Within one day the counts add up over transcriptions; the first
/// transcription of another day starts them afresh. Here `s2` is the
/// statistics after recording `n1` words on `today` from `s1`.
pub proof fn law_stats_accumulate_within_a_day(s1: Stats, s2: Stats, n1: u32, n2: u32, today: Seq<char>)
    requires
        s2.date@ == today,
        s2.words_today == recorded_words(s1, n1, today),
        s2.transcriptions_today == recorded_transcriptions(s1, today),
    ensures
        recorded_words(s2, n2, today) == (if s1.date@ == today { s1.words_today as int } else { 0 })
            + n1 + n2,
        recorded_transcriptions(s2, today) == (if s1.date@ == today {
            s1.transcriptions_today as int
        } else {
            0
        }) + 2,
        s1.date@ != today ==> recorded_words(s1, n1, today) == n1 && recorded_transcriptions(
            s1,
            today,
        ) == 1,
{
}

/// A snippet match pastes one of the user's own replacements: whatever
/// `first_snippet` finds is the replacement of a snippet in the list whose
/// lowercased trigger is the key, and no earlier snippet has that trigger.
pub proof fn law_snippet_match_is_a_listed_replacement(key: Seq<char>, snippets: Seq<Snippet>)
    requires
        first_snippet(key, snippets) is Some,
    ensures
        exists|i: int|
            0 <= i < snippets.len() && #[trigger] snippets[i].replacement@ == first_snippet(
                key,
                snippets,
            )->0 && key == lowercase_of(snippets[i].trigger@) && forall|j: int|
                0 <= j < i ==> key != lowercase_of(#[trigger] snippets[j].trigger@),
    decreases snippets.len(),
{
    if key == lowercase_of(snippets[0].trigger@) {
        assert(snippets[0].replacement@ == first_snippet(key, snippets)->0);
    } else {
        let rest = snippets.drop_first();
        law_snippet_match_is_a_listed_replacement(key, rest);
        let i = choose|i: int|
            0 <= i < rest.len() && #[trigger] rest[i].replacement@ == first_snippet(key, rest)->0
                && key == lowercase_of(rest[i].trigger@) && forall|j: int|
                0 <= j < i ==> key != lowercase_of(#[trigger] rest[j].trigger@);
        assert(snippets[i + 1] == rest[i]);
        assert forall|j: int| 0 <= j < i + 1 implies key != lowercase_of(
            #[trigger] snippets[j].trigger@,
        ) by {
            if j > 0 {
                assert(snippets[j] == rest[j - 1]);
            }
        }
        assert(snippets[i + 1].replacement@ == first_snippet(key, snippets)->0);
    }
}

} // verus!
