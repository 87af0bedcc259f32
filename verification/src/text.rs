//! Character-level text model shared by the refiner, the snippet matcher and
//! the pipeline: whitespace, trimming, character removal and word counting,
//! all stated over `Seq<char>`.
use vstd::prelude::*;

verus! {

broadcast use vstd::string::group_string_axioms;

/// Unicode `White_Space`, the set that `char::is_whitespace` documents.
pub open spec fn is_ws(c: char) -> bool {
    let u = c as u32;
    ||| 0x9 <= u <= 0xd
    ||| u == 0x20
    ||| u == 0x85
    ||| u == 0xa0
    ||| u == 0x1680
    ||| 0x2000 <= u <= 0x200a
    ||| u == 0x2028
    ||| u == 0x2029
    ||| u == 0x202f
    ||| u == 0x205f
    ||| u == 0x3000
}

/// `s` without its leading whitespace.
pub open spec fn trim_start(s: Seq<char>) -> Seq<char>
    decreases s.len(),
{
    if s.len() > 0 && is_ws(s[0]) {
        trim_start(s.drop_first())
    } else {
        s
    }
}

/// `s` without its trailing whitespace.
pub open spec fn trim_end(s: Seq<char>) -> Seq<char>
    decreases s.len(),
{
    if s.len() > 0 && is_ws(s.last()) {
        trim_end(s.drop_last())
    } else {
        s
    }
}

/// `s` without leading and trailing whitespace (what `str::trim` returns).
pub open spec fn trim(s: Seq<char>) -> Seq<char> {
    trim_end(trim_start(s))
}

/// `s` without its trailing occurrences of `c` (what `str::trim_end_matches`
/// returns for a single character).
pub open spec fn trim_end_char(s: Seq<char>, c: char) -> Seq<char>
    decreases s.len(),
{
    if s.len() > 0 && s.last() == c {
        trim_end_char(s.drop_last(), c)
    } else {
        s
    }
}

/// `s` with every occurrence of `c` removed (what `str::replace(c, "")`
/// returns).
pub open spec fn without_char(s: Seq<char>, c: char) -> Seq<char>
    decreases s.len(),
{
    if s.len() == 0 {
        s
    } else if s.last() == c {
        without_char(s.drop_last(), c)
    } else {
        without_char(s.drop_last(), c).push(s.last())
    }
}

/// Whether the space at index `i` of `s` stands directly before `p`.
pub open spec fn space_before(s: Seq<char>, p: char, i: int) -> bool {
    s[i] == ' ' && i + 1 < s.len() && s[i + 1] == p
}

/// The first `k` characters of `s`, less every space that stands directly
/// before `p` in `s`.
pub open spec fn tighten_prefix(s: Seq<char>, p: char, k: int) -> Seq<char>
    decreases k,
{
    if k <= 0 {
        Seq::empty()
    } else if space_before(s, p, k - 1) {
        tighten_prefix(s, p, k - 1)
    } else {
        tighten_prefix(s, p, k - 1).push(s[k - 1])
    }
}

/// `s` with every " p" replaced by "p" (what `str::replace(" p", "p")`
/// returns: two such matches can never overlap).
pub open spec fn tighten(s: Seq<char>, p: char) -> Seq<char> {
    tighten_prefix(s, p, s.len() as int)
}

/// Whether a word (a maximal run of non-whitespace) starts at index `i`.
pub open spec fn word_starts_at(s: Seq<char>, i: int) -> bool {
    !is_ws(s[i]) && (i == 0 || is_ws(s[i - 1]))
}

/// The number of words that start among the first `k` characters of `s`.
pub open spec fn words_in_prefix(s: Seq<char>, k: int) -> nat
    decreases k,
{
    if k <= 0 {
        0
    } else if word_starts_at(s, k - 1) {
        words_in_prefix(s, k - 1) + 1
    } else {
        words_in_prefix(s, k - 1)
    }
}

/// The number of whitespace-separated words of `s` (what
/// `str::split_whitespace().count()` returns).
pub open spec fn word_count(s: Seq<char>) -> nat {
    words_in_prefix(s, s.len() as int)
}

/// The decimal digit for `d < 10`.
pub open spec fn digit(d: nat) -> char {
    if d == 0 { '0' }
    else if d == 1 { '1' }
    else if d == 2 { '2' }
    else if d == 3 { '3' }
    else if d == 4 { '4' }
    else if d == 5 { '5' }
    else if d == 6 { '6' }
    else if d == 7 { '7' }
    else if d == 8 { '8' }
    else { '9' }
}

/// The decimal notation of `n`, without leading zeros.
pub open spec fn decimal(n: nat) -> Seq<char>
    decreases n,
{
    if n < 10 {
        seq![digit(n)]
    } else {
        decimal(n / 10).push(digit(n % 10))
    }
}

/// The characters of an optional string.
pub open spec fn opt_view(o: Option<String>) -> Option<Seq<char>> {
    match o {
        Some(s) => Some(s@),
        None => None,
    }
}

/// What `str::to_lowercase` returns for `s` (Unicode full lowercase
/// mapping, including the context-dependent final sigma).
pub uninterp spec fn lowercase_of(s: Seq<char>) -> Seq<char>;

/// Whether `char::is_lowercase` holds of `c`.
pub uninterp spec fn is_lowercase_char(c: char) -> bool;

/// The characters of `char::to_uppercase` applied to `c`.
pub uninterp spec fn uppercase_of(c: char) -> Seq<char>;

/// Calls `str::to_lowercase`; its result is named `lowercase_of`.
#[verifier::external_body]
pub(crate) fn to_lowercase(s: &str) -> (r: String)
    ensures
        r@ == lowercase_of(s@),
{
    s.to_lowercase()
}

/// Calls `char::is_lowercase`; its result is named `is_lowercase_char`.
#[verifier::external_body]
fn char_is_lowercase(c: char) -> (b: bool)
    ensures
        b == is_lowercase_char(c),
{
    c.is_lowercase()
}

/// Calls `char::to_uppercase` and collects the characters it yields;
/// the result is named `uppercase_of`.
#[verifier::external_body]
fn char_to_uppercase(c: char) -> (r: String)
    ensures
        r@ == uppercase_of(c),
{
    c.to_uppercase().collect()
}

/// Calls `String::push`, which appends one character.
#[verifier::external_body]
fn push_char(s: &mut String, c: char)
    ensures
        final(s)@ == old(s)@.push(c),
{
    s.push(c)
}

/// The characters of `s`, in order.
pub fn chars_of(s: &str) -> (v: Vec<char>)
    ensures
        v@ == s@,
{
    let mut v: Vec<char> = Vec::new();
    for c in it: s.chars()
        invariant
            v@ == it.seq().take(it.index()),
            it.seq() == s@,
    {
        v.push(c);
    }
    v
}

/// A `String` holding exactly the characters of `v`.
pub fn string_of(v: &[char]) -> (s: String)
    ensures
        s@ == v@,
{
    let mut s = String::new();
    let n = v.len();
    let mut i: usize = 0;
    while i < n
        invariant
            n == v@.len(),
            i <= n,
            s@ == v@.take(i as int),
        decreases n - i,
    {
        push_char(&mut s, v[i]);
        assert(v@.take(i as int).push(v@[i as int]) =~= v@.take(i + 1));
        i += 1;
    }
    assert(v@.take(n as int) =~= v@);
    s
}

/// Whether `c` is whitespace (`char::is_whitespace`).
pub fn is_whitespace(c: char) -> (b: bool)
    ensures
        b == is_ws(c),
{
    let u = c as u32;
    (0x9 <= u && u <= 0xd) || u == 0x20 || u == 0x85 || u == 0xa0 || u == 0x1680 || (0x2000 <= u
        && u <= 0x200a) || u == 0x2028 || u == 0x2029 || u == 0x202f || u == 0x205f || u == 0x3000
}

proof fn lemma_trim_start_step(s: Seq<char>, i: int)
    requires
        0 <= i < s.len(),
        is_ws(s[i]),
    ensures
        trim_start(s.subrange(i, s.len() as int)) == trim_start(s.subrange(i + 1, s.len() as int)),
{
    let t = s.subrange(i, s.len() as int);
    assert(t.drop_first() =~= s.subrange(i + 1, s.len() as int));
}

proof fn lemma_trim_end_step(s: Seq<char>, i: int, j: int)
    requires
        0 <= i < j <= s.len(),
        is_ws(s[j - 1]),
    ensures
        trim_end(s.subrange(i, j)) == trim_end(s.subrange(i, j - 1)),
{
    let t = s.subrange(i, j);
    assert(t.drop_last() =~= s.subrange(i, j - 1));
}

/// `v` without leading and trailing whitespace.
pub fn trim_chars(v: &[char]) -> (r: Vec<char>)
    ensures
        r@ == trim(v@),
{
    let n = v.len();
    let mut i: usize = 0;
    assert(v@.subrange(0, n as int) =~= v@);
    while i < n && is_whitespace(v[i])
        invariant
            n == v@.len(),
            i <= n,
            trim_start(v@) == trim_start(v@.subrange(i as int, n as int)),
        decreases n - i,
    {
        proof {
            lemma_trim_start_step(v@, i as int);
        }
        i += 1;
    }
    assert(trim_start(v@) == v@.subrange(i as int, n as int));
    let mut j: usize = n;
    while j > i && is_whitespace(v[j - 1])
        invariant
            n == v@.len(),
            i <= j <= n,
            trim(v@) == trim_end(v@.subrange(i as int, j as int)),
        decreases j,
    {
        proof {
            lemma_trim_end_step(v@, i as int, j as int);
        }
        j -= 1;
    }
    let mut r: Vec<char> = Vec::new();
    let mut k: usize = i;
    while k < j
        invariant
            n == v@.len(),
            i <= k <= j <= n,
            r@ == v@.subrange(i as int, k as int),
        decreases j - k,
    {
        r.push(v[k]);
        assert(v@.subrange(i as int, k as int).push(v@[k as int]) =~= v@.subrange(
            i as int,
            k + 1,
        ));
        k += 1;
    }
    assert(trim_end(v@.subrange(i as int, j as int)) == v@.subrange(i as int, j as int));
    r
}

/// What `str::trim` returns, as a `String`.
pub fn trim_str(s: &str) -> (r: String)
    ensures
        r@ == trim(s@),
{
    let v = chars_of(s);
    let t = trim_chars(v.as_slice());
    string_of(t.as_slice())
}

/// `v` without its trailing occurrences of `c`.
pub fn trim_end_char_chars(v: &[char], c: char) -> (r: Vec<char>)
    ensures
        r@ == trim_end_char(v@, c),
{
    let n = v.len();
    let mut j: usize = n;
    assert(v@.subrange(0, n as int) =~= v@);
    while j > 0 && v[j - 1] == c
        invariant
            n == v@.len(),
            j <= n,
            trim_end_char(v@, c) == trim_end_char(v@.subrange(0, j as int), c),
        decreases j,
    {
        assert(v@.subrange(0, j as int).drop_last() =~= v@.subrange(0, j - 1));
        j -= 1;
    }
    let mut r: Vec<char> = Vec::new();
    let mut k: usize = 0;
    while k < j
        invariant
            n == v@.len(),
            k <= j <= n,
            r@ == v@.subrange(0, k as int),
        decreases j - k,
    {
        r.push(v[k]);
        assert(v@.subrange(0, k as int).push(v@[k as int]) =~= v@.subrange(0, k + 1));
        k += 1;
    }
    r
}

/// `v` with every occurrence of `c` removed.
pub fn without_char_chars(v: &[char], c: char) -> (r: Vec<char>)
    ensures
        r@ == without_char(v@, c),
{
    let n = v.len();
    let mut r: Vec<char> = Vec::new();
    let mut k: usize = 0;
    while k < n
        invariant
            n == v@.len(),
            k <= n,
            r@ == without_char(v@.take(k as int), c),
        decreases n - k,
    {
        assert(v@.take(k + 1).drop_last() =~= v@.take(k as int));
        if v[k] != c {
            r.push(v[k]);
        }
        k += 1;
    }
    assert(v@.take(n as int) =~= v@);
    r
}

/// `v` with every " p" replaced by "p".
pub fn tighten_chars(v: &[char], p: char) -> (r: Vec<char>)
    ensures
        r@ == tighten(v@, p),
{
    let n = v.len();
    let mut r: Vec<char> = Vec::new();
    let mut k: usize = 0;
    while k < n
        invariant
            n == v@.len(),
            k <= n,
            r@ == tighten_prefix(v@, p, k as int),
        decreases n - k,
    {
        if !(v[k] == ' ' && k + 1 < n && v[k + 1] == p) {
            r.push(v[k]);
        }
        k += 1;
    }
    r
}

/// The number of whitespace-separated words of `s`, as `u32` (the count
/// is truncated to 32 bits as an `as u32` cast does).
pub fn count_words(s: &str) -> (n: u32)
    ensures
        n == word_count(s@) as u32,
{
    let v = chars_of(s);
    let len = v.len();
    let mut count: usize = 0;
    let mut k: usize = 0;
    while k < len
        invariant
            len == v@.len(),
            v@ == s@,
            k <= len,
            count == words_in_prefix(v@, k as int),
            count <= k,
        decreases len - k,
    {
        if !is_whitespace(v[k]) && (k == 0 || is_whitespace(v[k - 1])) {
            count += 1;
        }
        k += 1;
    }
    count as u32
}

/// The decimal notation of `n`.
pub fn decimal_string(n: u64) -> (s: String)
    ensures
        s@ == decimal(n as nat),
{
    let v = decimal_chars(n);
    string_of(v.as_slice())
}

/// The digit character of `d < 10`.
fn digit_char(d: u64) -> (c: char)
    requires
        d < 10,
    ensures
        c == digit(d as nat),
{
    if d == 0 { '0' }
    else if d == 1 { '1' }
    else if d == 2 { '2' }
    else if d == 3 { '3' }
    else if d == 4 { '4' }
    else if d == 5 { '5' }
    else if d == 6 { '6' }
    else if d == 7 { '7' }
    else if d == 8 { '8' }
    else { '9' }
}

fn decimal_chars(n: u64) -> (v: Vec<char>)
    ensures
        v@ == decimal(n as nat),
    decreases n,
{
    if n < 10 {
        let mut v = Vec::new();
        v.push(digit_char(n));
        v
    } else {
        let mut v = decimal_chars(n / 10);
        v.push(digit_char(n % 10));
        v
    }
}

/// `s` with its first character replaced by its uppercase form when that
/// character is lowercase.
pub open spec fn capitalized(s: Seq<char>) -> Seq<char> {
    if s.len() > 0 && is_lowercase_char(s[0]) {
        uppercase_of(s[0]) + s.drop_first()
    } else {
        s
    }
}

/// `v` with its first character uppercased when it is lowercase.
pub fn capitalize_chars(v: &[char]) -> (r: Vec<char>)
    ensures
        r@ == capitalized(v@),
{
    let n = v.len();
    if n > 0 && char_is_lowercase(v[0]) {
        let up = char_to_uppercase(v[0]);
        let mut r = chars_of(up.as_str());
        let mut k: usize = 1;
        let ghost base = r@;
        while k < n
            invariant
                n == v@.len(),
                1 <= k <= n,
                base == uppercase_of(v@[0]),
                r@ == base + v@.subrange(1, k as int),
            decreases n - k,
        {
            r.push(v[k]);
            assert(base + v@.subrange(1, k as int).push(v@[k as int]) =~= base + v@.subrange(
                1,
                k + 1,
            ));
            k += 1;
        }
        assert(v@.subrange(1, n as int) =~= v@.drop_first());
        r
    } else {
        let mut r: Vec<char> = Vec::new();
        let mut k: usize = 0;
        while k < n
            invariant
                n == v@.len(),
                k <= n,
                r@ == v@.take(k as int),
            decreases n - k,
        {
            r.push(v[k]);
            assert(v@.take(k as int).push(v@[k as int]) =~= v@.take(k + 1));
            k += 1;
        }
        assert(v@.take(n as int) =~= v@);
        r
    }
}

/// Appends the characters of `t` to `s`.
pub fn append_str(s: &mut String, t: &str)
    ensures
        final(s)@ == old(s)@ + t@,
{
    let v = chars_of(t);
    let n = v.len();
    let mut i: usize = 0;
    let ghost start = s@;
    while i < n
        invariant
            n == v@.len(),
            v@ == t@,
            i <= n,
            s@ == start + v@.take(i as int),
        decreases n - i,
    {
        push_char(s, v[i]);
        assert(start + v@.take(i as int).push(v@[i as int]) =~= start + v@.take(i + 1));
        i += 1;
    }
    assert(v@.take(n as int) =~= v@);
}

/// `a` followed by `b`.
pub fn concatenated(a: &str, b: &str) -> (r: String)
    ensures
        r@ == a@ + b@,
{
    let mut r = a.to_owned();
    append_str(&mut r, b);
    r
}

/// Whether the characters of `v` are exactly those of `lit`.
pub fn chars_equal(v: &[char], lit: &str) -> (b: bool)
    ensures
        b == (v@ == lit@),
{
    let w = chars_of(lit);
    if v.len() != w.len() {
        return false;
    }
    let n = v.len();
    let mut i: usize = 0;
    while i < n
        invariant
            n == v@.len(),
            n == w@.len(),
            w@ == lit@,
            i <= n,
            forall|k: int| 0 <= k < i ==> v@[k] == w@[k],
        decreases n - i,
    {
        if v[i] != w[i] {
            return false;
        }
        i += 1;
    }
    assert(v@ =~= w@);
    true
}

proof fn lemma_digit_injective(a: nat, b: nat)
    requires
        a < 10,
        b < 10,
        digit(a) == digit(b),
    ensures
        a == b,
{
}

proof fn lemma_decimal_len(n: nat)
    ensures
        decimal(n).len() >= 1,
        n >= 10 ==> decimal(n).len() >= 2,
    decreases n,
{
    if n >= 10 {
        lemma_decimal_len(n / 10);
    }
}

/// Different numbers have different decimal notations.
pub proof fn lemma_decimal_injective(a: nat, b: nat)
    requires
        decimal(a) == decimal(b),
    ensures
        a == b,
    decreases a,
{
    lemma_decimal_len(a);
    lemma_decimal_len(b);
    if a < 10 && b < 10 {
        assert(decimal(a)[0] == digit(a));
        assert(decimal(b)[0] == digit(b));
        lemma_digit_injective(a, b);
    } else if a >= 10 && b >= 10 {
        let da = decimal(a);
        let db = decimal(b);
        assert(da.last() == digit(a % 10));
        assert(db.last() == digit(b % 10));
        lemma_digit_injective(a % 10, b % 10);
        assert(da.drop_last() =~= decimal(a / 10));
        assert(db.drop_last() =~= decimal(b / 10));
        lemma_decimal_injective(a / 10, b / 10);
    } else {
        assert(decimal(a).len() != decimal(b).len());
    }
}

proof fn lemma_trim_start_shape(s: Seq<char>)
    ensures
        trim_start(s).len() == 0 || !is_ws(trim_start(s)[0]),
    decreases s.len(),
{
    if s.len() > 0 && is_ws(s[0]) {
        lemma_trim_start_shape(s.drop_first());
    }
}

proof fn lemma_trim_end_shape(s: Seq<char>)
    ensures
        trim_end(s).len() == 0 || !is_ws(trim_end(s).last()),
        trim_end(s).len() <= s.len(),
        trim_end(s) =~= s.take(trim_end(s).len() as int),
    decreases s.len(),
{
    if s.len() > 0 && is_ws(s.last()) {
        lemma_trim_end_shape(s.drop_last());
        assert(s.drop_last().take(trim_end(s).len() as int) =~= s.take(trim_end(s).len() as int));
    }
}

/// Trimming twice is trimming once: a trimmed text has no whitespace at
/// either end.
pub proof fn lemma_trim_idempotent(s: Seq<char>)
    ensures
        trim(trim(s)) == trim(s),
        trim(s).len() == 0 || (!is_ws(trim(s)[0]) && !is_ws(trim(s).last())),
{
    let a = trim_start(s);
    lemma_trim_start_shape(s);
    lemma_trim_end_shape(a);
    let b = trim_end(a);
    if b.len() > 0 {
        assert(b[0] == a[0]);
    }
    assert(trim_start(b) == b);
    lemma_trim_end_shape(b);
    assert(trim_end(b) == b);
}

proof fn lemma_trim_start_skips_ws(s: Seq<char>)
    ensures
        trim_start(s).len() <= s.len(),
        trim_start(s) =~= s.skip(s.len() - trim_start(s).len()),
        forall|k: int| 0 <= k < s.len() - trim_start(s).len() ==> is_ws(#[trigger] s[k]),
    decreases s.len(),
{
    if s.len() > 0 && is_ws(s[0]) {
        let d = s.drop_first();
        lemma_trim_start_skips_ws(d);
        assert(d.skip(d.len() - trim_start(d).len()) =~= s.skip(s.len() - trim_start(s).len()));
        assert forall|k: int| 0 <= k < s.len() - trim_start(s).len() implies is_ws(#[trigger] s[k]) by {
            if k > 0 {
                assert(s[k] == d[k - 1]);
            }
        }
    }
}

proof fn lemma_trim_end_takes_ws(s: Seq<char>)
    ensures
        forall|k: int| trim_end(s).len() <= k < s.len() ==> is_ws(#[trigger] s[k]),
    decreases s.len(),
{
    if s.len() > 0 && is_ws(s.last()) {
        let d = s.drop_last();
        lemma_trim_end_takes_ws(d);
        assert forall|k: int| trim_end(s).len() <= k < s.len() implies is_ws(#[trigger] s[k]) by {
            if k < s.len() - 1 {
                assert(s[k] == d[k]);
            }
        }
    }
}

/// Trimming removes the whitespace at both ends and nothing else: the
/// result is a contiguous part of the text, everything outside it is
/// whitespace, and it neither begins nor ends with whitespace.
pub proof fn law_trim_drops_only_outer_whitespace(s: Seq<char>)
    ensures
        exists|i: int, j: int|
            0 <= i <= j <= s.len() && trim(s) == s.subrange(i, j) && (forall|k: int|
                0 <= k < i ==> is_ws(#[trigger] s[k])) && (forall|k: int|
                j <= k < s.len() ==> is_ws(#[trigger] s[k])),
        trim(s).len() == 0 || (!is_ws(trim(s)[0]) && !is_ws(trim(s).last())),
{
    let a = trim_start(s);
    lemma_trim_start_skips_ws(s);
    lemma_trim_end_shape(a);
    lemma_trim_end_takes_ws(a);
    lemma_trim_idempotent(s);
    let i = s.len() - a.len();
    let j = i + trim_end(a).len();
    assert(trim(s) =~= s.subrange(i, j));
    assert forall|k: int| j <= k < s.len() implies is_ws(#[trigger] s[k]) by {
        assert(s[k] == a[k - i]);
    }
}

/// The spaces dropped before `p` are exactly those that stand directly
/// before it: a lone space before `p` goes, any other single character
/// stays, and two texts tighten apart unless the first ends with a space
/// and the second begins with `p`.
pub proof fn law_tighten_drops_space_before(s: Seq<char>, t: Seq<char>, p: char, c: char)
    ensures
        tighten(Seq::empty(), p) == Seq::<char>::empty(),
        tighten(seq![c], p) == seq![c],
        p != ' ' ==> tighten(seq![' ', p], p) == seq![p],
        !(s.len() > 0 && s.last() == ' ' && t.len() > 0 && t[0] == p) ==> tighten(s + t, p)
            == tighten(s, p) + tighten(t, p),
    decreases t.len(),
{
    assert(tighten_prefix(seq![c], p, 0) =~= Seq::<char>::empty());
    let q = seq![' ', p];
    assert(q[0] == ' ' && q[1] == p && q.len() == 2);
    assert(space_before(q, p, 0));
    assert(tighten_prefix(q, p, 0) =~= Seq::<char>::empty());
    assert(tighten_prefix(q, p, 1) =~= Seq::<char>::empty());
    assert(!space_before(q, p, 1));
    assert(tighten_prefix(q, p, 2) =~= seq![p]);
    if !(s.len() > 0 && s.last() == ' ' && t.len() > 0 && t[0] == p) {
        lemma_tighten_concat(s, t, p, t.len() as int);
    }
}

/// Tightening a prefix of `s` sees only `s` while no space of `s` stands
/// before a `p` taken from what follows.
proof fn lemma_tighten_prefix_same(s: Seq<char>, u: Seq<char>, p: char, k: int)
    requires
        0 <= k <= s.len(),
        s.len() <= u.len(),
        s =~= u.take(s.len() as int),
        k < s.len() || !(s.len() > 0 && s.last() == ' ' && u.len() > s.len() && u[s.len() as int] == p),
    ensures
        tighten_prefix(u, p, k) == tighten_prefix(s, p, k),
    decreases k,
{
    if k > 0 {
        lemma_tighten_prefix_same(s, u, p, k - 1);
        assert(u[k - 1] == s[k - 1]);
        if k < s.len() {
            assert(u[k] == s[k]);
        }
    }
}

proof fn lemma_tighten_concat(s: Seq<char>, t: Seq<char>, p: char, k: int)
    requires
        0 <= k <= t.len(),
        !(s.len() > 0 && s.last() == ' ' && t.len() > 0 && t[0] == p),
    ensures
        tighten_prefix(s + t, p, s.len() + k) == tighten(s, p) + tighten_prefix(t, p, k),
    decreases k,
{
    let u = s + t;
    if k == 0 {
        lemma_tighten_prefix_same(s, u, p, s.len() as int);
        assert(tighten_prefix(t, p, 0) =~= Seq::<char>::empty());
        assert(tighten(s, p) + Seq::<char>::empty() =~= tighten(s, p));
    } else {
        lemma_tighten_concat(s, t, p, k - 1);
        let m = s.len() + k - 1;
        assert(u[m] == t[k - 1]);
        if k < t.len() {
            assert(u[m + 1] == t[k]);
        }
        assert(space_before(u, p, m) == space_before(t, p, k - 1));
        assert(tighten(s, p) + tighten_prefix(t, p, k - 1).push(t[k - 1]) =~= (tighten(s, p)
            + tighten_prefix(t, p, k - 1)).push(t[k - 1]));
    }
}

/// Capitalizing touches the first character only: a text that does not
/// begin with a lowercase letter stays as it is, and otherwise the first
/// character is replaced by its uppercase form and the rest kept.
pub proof fn law_capitalize_first_only(s: Seq<char>)
    ensures
        !(s.len() > 0 && is_lowercase_char(s[0])) ==> capitalized(s) == s,
        s.len() > 0 && is_lowercase_char(s[0]) ==> capitalized(s).take(
            uppercase_of(s[0]).len() as int,
        ) == uppercase_of(s[0]) && capitalized(s).skip(uppercase_of(s[0]).len() as int)
            == s.drop_first(),
{
    if s.len() > 0 && is_lowercase_char(s[0]) {
        let u = uppercase_of(s[0]);
        assert((u + s.drop_first()).take(u.len() as int) =~= u);
        assert((u + s.drop_first()).skip(u.len() as int) =~= s.drop_first());
    }
}

/// Whether every character of `s` is whitespace or in `cs`.
pub open spec fn only_ws_or(s: Seq<char>, cs: Set<char>) -> bool {
    forall|k: int| 0 <= k < s.len() ==> is_ws(#[trigger] s[k]) || cs.contains(s[k])
}

/// Removing `c` keeps every other character: what is left is whitespace
/// or in `cs` exactly when the text was whitespace, `c` or in `cs`.
pub proof fn law_without_char_keeps_the_rest(s: Seq<char>, c: char, cs: Set<char>)
    ensures
        only_ws_or(without_char(s, c), cs) <==> only_ws_or(s, cs.insert(c)),
        forall|k: int| 0 <= k < without_char(s, c).len() ==> #[trigger] without_char(s, c)[k] != c,
    decreases s.len(),
{
    if s.len() > 0 {
        let d = s.drop_last();
        law_without_char_keeps_the_rest(d, c, cs);
        let w = without_char(d, c);
        if only_ws_or(s, cs.insert(c)) {
            assert forall|k: int| 0 <= k < d.len() implies is_ws(#[trigger] d[k]) || cs.insert(c).contains(d[k]) by {
                assert(d[k] == s[k]);
            }
        }
        if only_ws_or(without_char(s, c), cs) {
            if s.last() != c {
                assert forall|k: int| 0 <= k < w.len() implies is_ws(#[trigger] w[k]) || cs.contains(w[k]) by {
                    assert(w[k] == without_char(s, c)[k]);
                }
                assert(without_char(s, c)[w.len() as int] == s.last());
            }
            assert forall|k: int| 0 <= k < s.len() implies is_ws(#[trigger] s[k]) || cs.insert(c).contains(s[k]) by {
                if k < d.len() {
                    assert(s[k] == d[k]);
                }
            }
        }
        if s.last() != c {
            assert forall|k: int| 0 <= k < without_char(s, c).len() implies #[trigger] without_char(s, c)[k] != c by {
                if k < w.len() {
                    assert(without_char(s, c)[k] == w[k]);
                }
            }
        }
    }
}

/// Trimming leaves nothing exactly when the text is all whitespace.
pub proof fn law_trim_empty_iff_blank(s: Seq<char>)
    ensures
        trim(s).len() == 0 <==> only_ws_or(s, Set::empty()),
{
    law_trim_drops_only_outer_whitespace(s);
    let (i, j) = choose|i: int, j: int|
        0 <= i <= j <= s.len() && trim(s) == s.subrange(i, j) && (forall|k: int|
            0 <= k < i ==> is_ws(#[trigger] s[k])) && (forall|k: int|
            j <= k < s.len() ==> is_ws(#[trigger] s[k]));
    if trim(s).len() == 0 {
        assert forall|k: int| 0 <= k < s.len() implies is_ws(#[trigger] s[k]) || Set::<char>::empty().contains(s[k]) by {
            if k >= i {
                assert(k >= j);
            }
        }
    } else {
        assert(trim(s)[0] == s[i]);
        assert(!is_ws(s[i]));
    }
}

/// Stripping a trailing character removes every trailing occurrence and
/// nothing else: the result begins the text, all that follows it is that
/// character, and it does not end with it.
pub proof fn law_trim_end_char_strips_all(s: Seq<char>, c: char)
    ensures
        trim_end_char(s, c).len() <= s.len(),
        trim_end_char(s, c) == s.take(trim_end_char(s, c).len() as int),
        forall|k: int| trim_end_char(s, c).len() <= k < s.len() ==> #[trigger] s[k] == c,
        trim_end_char(s, c).len() == 0 || trim_end_char(s, c).last() != c,
    decreases s.len(),
{
    if s.len() > 0 && s.last() == c {
        let d = s.drop_last();
        law_trim_end_char_strips_all(d, c);
        assert(d.take(trim_end_char(s, c).len() as int) =~= s.take(trim_end_char(s, c).len() as int));
        assert forall|k: int| trim_end_char(s, c).len() <= k < s.len() implies #[trigger] s[k] == c by {
            if k < d.len() {
                assert(s[k] == d[k]);
            }
        }
    } else {
        assert(s.take(s.len() as int) =~= s);
    }
}

} // verus!
