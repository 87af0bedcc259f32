//! Regular expressions, through the `regex` crate.
//!
//! A `Pattern` keeps the source text it was compiled from, so that what a
//! replacement returns can be named as a function of that text, the
//! haystack and the replacement template.
use vstd::prelude::*;

verus! {

#[verifier::external_type_specification]
#[verifier::external_body]
pub struct ExRegex(regex::Regex);

#[verifier::external_type_specification]
#[verifier::external_body]
pub struct ExRegexError(regex::Error);

/// Whether `regex::Regex::new` accepts `pattern` (returns `Ok`).
pub uninterp spec fn regex_compiles(pattern: Seq<char>) -> bool;

/// What `Regex::replace_all` returns for the regex compiled from
/// `pattern`, the haystack and the replacement template (in which `$1`
/// and the like stand for capture groups).
pub uninterp spec fn regex_replace_all(
    pattern: Seq<char>,
    haystack: Seq<char>,
    rep: Seq<char>,
) -> Seq<char>;

/// The characters that `regex::escape` precedes with a backslash
/// (`regex_syntax::is_meta_character`).
pub open spec fn is_regex_meta(c: char) -> bool {
    ||| c == '\\'
    ||| c == '.'
    ||| c == '+'
    ||| c == '*'
    ||| c == '?'
    ||| c == '('
    ||| c == ')'
    ||| c == '|'
    ||| c == '['
    ||| c == ']'
    ||| c == '{'
    ||| c == '}'
    ||| c == '^'
    ||| c == '$'
    ||| c == '#'
    ||| c == '&'
    ||| c == '-'
    ||| c == '~'
}

/// `s` with a backslash before each regex meta character: a pattern that
/// matches `s` literally.
pub open spec fn escaped(s: Seq<char>) -> Seq<char>
    decreases s.len(),
{
    if s.len() == 0 {
        s
    } else if is_regex_meta(s.last()) {
        escaped(s.drop_last()).push('\\').push(s.last())
    } else {
        escaped(s.drop_last()).push(s.last())
    }
}

/// Calls `regex::escape`. Its source (`regex_syntax::escape_into`) pushes a
/// backslash before each meta character and copies every character, which
/// is what `escaped` states.
#[verifier::external_body]
pub(crate) fn escape(s: &str) -> (r: String)
    ensures
        r@ == escaped(s@),
{
    regex::escape(s)
}

/// Calls `regex::Regex::new`; whether it succeeds is named
/// `regex_compiles`. Nothing is stated of the error.
#[verifier::external_body]
fn compile(pattern: &str) -> (r: Result<regex::Regex, regex::Error>)
    ensures
        r is Ok <==> regex_compiles(pattern@),
{
    regex::Regex::new(pattern)
}

/// A compiled regular expression together with the text it was compiled
/// from. Its fields are private and `Pattern::new` is the only place that
/// makes one, so `re` is always the compilation of `source`.
pub struct Pattern {
    source: String,
    re: regex::Regex,
}

impl Pattern {
    /// The text this pattern was compiled from.
    pub closed spec fn source(&self) -> Seq<char> {
        self.source@
    }

    /// Compiles `pattern`; `None` exactly when the regex crate rejects it.
    pub fn new(pattern: &str) -> (r: Option<Pattern>)
        ensures
            r is Some <==> regex_compiles(pattern@),
            r matches Some(p) ==> p.source() == pattern@,
    {
        match compile(pattern) {
            Ok(re) => Some(Pattern { source: pattern.to_owned(), re }),
            Err(_) => None,
        }
    }

    /// Calls `Regex::replace_all` with `rep` as the replacement template;
    /// its result is named `regex_replace_all` of the source text.
    #[verifier::external_body]
    pub(crate) fn replace_all(&self, haystack: &str, rep: &str) -> (r: String)
        ensures
            r@ == regex_replace_all(self.source(), haystack@, rep@),
    {
        self.re.replace_all(haystack, rep).into_owned()
    }
}

/// One replacement rule: a pattern and its replacement template.
pub open spec fn rule_of(r: (&str, &str)) -> (Seq<char>, Seq<char>) {
    (r.0@, r.1@)
}

/// The text after applying each rule in turn to every match; a rule whose
/// pattern does not compile leaves the text as it is.
pub open spec fn apply_rules(text: Seq<char>, rules: Seq<(Seq<char>, Seq<char>)>) -> Seq<char>
    decreases rules.len(),
{
    if rules.len() == 0 {
        text
    } else {
        let prev = apply_rules(text, rules.drop_last());
        let rule = rules.last();
        if regex_compiles(rule.0) {
            regex_replace_all(rule.0, prev, rule.1)
        } else {
            prev
        }
    }
}

/// Applies `rules` in order to `text`, skipping a rule whose pattern does
/// not compile.
pub fn apply_rule_list(text: &str, rules: &Vec<(&str, &str)>) -> (r: String)
    ensures
        r@ == apply_rules(text@, rules@.map_values(|x: (&str, &str)| rule_of(x))),
{
    let ghost all = rules@.map_values(|x: (&str, &str)| rule_of(x));
    let mut result = text.to_owned();
    let n = rules.len();
    let mut i: usize = 0;
    while i < n
        invariant
            n == rules@.len(),
            all == rules@.map_values(|x: (&str, &str)| rule_of(x)),
            i <= n,
            result@ == apply_rules(text@, all.take(i as int)),
        decreases n - i,
    {
        let (pat, rep) = rules[i];
        assert(all.take(i + 1).drop_last() =~= all.take(i as int));
        assert(all.take(i + 1).last() == (pat@, rep@));
        match Pattern::new(pat) {
            Some(p) => {
                result = p.replace_all(result.as_str(), rep);
            },
            None => {},
        }
        i += 1;
    }
    assert(all.take(n as int) =~= all);
    result
}

} // verus!
