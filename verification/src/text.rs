//! Text as sequences of characters: case folding, trimming, searching,
//! splitting, decimal numbers and the order in which strings are sorted.

use vstd::prelude::*;
use vstd::slice::slice_subrange;

verus! {

/// `str::eq`: two string slices are equal exactly when they hold the same
/// characters in the same order.
pub assume_specification[ <str as PartialEq>::eq ](s: &str, other: &str) -> (res: bool)
    ensures
        res == (s@ == other@),
;

/// `String::push`: the character is appended at the end of the string.
pub assume_specification[ String::push ](s: &mut String, c: char)
    ensures
        final(s)@ == old(s)@.push(c),
;

/// `String::push_str`: the slice is appended at the end of the string.
pub assume_specification[ String::push_str ](s: &mut String, t: &str)
    ensures
        final(s)@ == old(s)@ + t@,
;

// ---------------------------------------------------------------------------
// Views
// ---------------------------------------------------------------------------

/// The characters of an optional string.
pub open spec fn opt_text(o: Option<String>) -> Option<Seq<char>> {
    match o {
        Some(s) => Some(s@),
        None => None,
    }
}

/// The characters of an optional string slice.
pub open spec fn opt_str(o: Option<&str>) -> Option<Seq<char>> {
    match o {
        Some(s) => Some(s@),
        None => None,
    }
}

/// The characters of every string of a list.
pub open spec fn texts(v: Seq<String>) -> Seq<Seq<char>> {
    v.map_values(|s: String| s@)
}

/// Copies an optional string.
pub fn clone_opt(o: &Option<String>) -> (r: Option<String>)
    ensures
        r == *o,
        opt_text(r) == opt_text(*o),
{
    match o {
        Some(s) => Some(s.clone()),
        None => None,
    }
}

/// Copies a list of strings.
pub fn clone_texts(v: &Vec<String>) -> (r: Vec<String>)
    ensures
        texts(r@) == texts(v@),
{
    let mut out: Vec<String> = Vec::new();
    let mut i: usize = 0;
    while i < v.len()
        invariant
            i <= v@.len(),
            texts(out@) == texts(v@.take(i as int)),
        decreases v@.len() - i,
    {
        out.push(v[i].clone());
        proof {
            assert(texts(v@.take(i + 1)) =~= texts(v@.take(i as int)).push(v@[i as int]@));
            assert(texts(out@) =~= texts(v@.take(i as int)).push(v@[i as int]@));
        }
        i = i + 1;
    }
    proof {
        assert(v@.take(v@.len() as int) =~= v@);
    }
    out
}

/// Two optional strings hold the same text.
pub fn opt_eq(a: &Option<String>, b: &Option<String>) -> (r: bool)
    ensures
        r == (opt_text(*a) == opt_text(*b)),
{
    match (a, b) {
        (Some(x), Some(y)) => x.as_str().eq(y.as_str()),
        (None, None) => true,
        _ => false,
    }
}

// ---------------------------------------------------------------------------
// Characters
// ---------------------------------------------------------------------------

/// The lower-case form of an ASCII letter; every other character is its own.
pub open spec fn lower_char(c: char) -> char {
    if 'A' <= c && c <= 'Z' {
        ((c as u32) + 32) as char
    } else {
        c
    }
}

/// ASCII case folding of a whole text.
pub open spec fn lower(s: Seq<char>) -> Seq<char> {
    s.map_values(|c: char| lower_char(c))
}

/// Folding changes the capitals of ASCII and nothing else, and folding twice is
/// folding once.
pub proof fn folding_changes_capitals_only(s: Seq<char>, i: int)
    requires
        0 <= i < s.len(),
    ensures
        lower(s).len() == s.len(),
        lower(lower(s)) == lower(s),
        'A' <= s[i] && s[i] <= 'Z' ==> lower(s)[i] as u32 == s[i] as u32 + 32,
        !('A' <= s[i] && s[i] <= 'Z') ==> lower(s)[i] == s[i],
        !('A' <= lower(s)[i] && lower(s)[i] <= 'Z'),
{
    assert forall|k: int| 0 <= k < s.len() implies lower_char(lower_char(#[trigger] s[k]))
        == lower_char(s[k]) by {}
    assert(lower(lower(s)) =~= lower(s));
}

/// The characters with the Unicode property White_Space.
pub open spec fn is_space(c: char) -> bool {
    let n = c as u32;
    ||| 0x9 <= n <= 0xd
    ||| n == 0x20
    ||| n == 0x85
    ||| n == 0xa0
    ||| n == 0x1680
    ||| 0x2000 <= n <= 0x200a
    ||| n == 0x2028
    ||| n == 0x2029
    ||| n == 0x202f
    ||| n == 0x205f
    ||| n == 0x3000
}

/// The characters of the Unicode category Cc (control codes).
pub open spec fn is_control(c: char) -> bool {
    let n = c as u32;
    n <= 0x1f || 0x7f <= n <= 0x9f
}

pub open spec fn is_digit(c: char) -> bool {
    '0' <= c && c <= '9'
}

pub fn to_lower_char(c: char) -> (r: char)
    ensures
        r == lower_char(c),
{
    if 'A' <= c && c <= 'Z' {
        let b: u8 = (c as u8) + 32;
        b as char
    } else {
        c
    }
}

pub fn char_is_space(c: char) -> (r: bool)
    ensures
        r == is_space(c),
{
    let n: u32 = c as u32;
    (0x9 <= n && n <= 0xd) || n == 0x20 || n == 0x85 || n == 0xa0 || n == 0x1680 || (0x2000 <= n
        && n <= 0x200a) || n == 0x2028 || n == 0x2029 || n == 0x202f || n == 0x205f || n == 0x3000
}

pub fn char_is_control(c: char) -> (r: bool)
    ensures
        r == is_control(c),
{
    let n: u32 = c as u32;
    n <= 0x1f || (0x7f <= n && n <= 0x9f)
}

// ---------------------------------------------------------------------------
// Strings and character lists
// ---------------------------------------------------------------------------

/// The characters of a string slice, in order.
pub fn chars_of(s: &str) -> (r: Vec<char>)
    ensures
        r@ == s@,
{
    let mut out: Vec<char> = Vec::new();
    for c in it: s.chars()
        invariant
            out@ == s@.take(it.index() as int),
            it.seq() == s@,
    {
        out.push(c);
    }
    out
}

/// The string that holds the given characters.
pub fn string_of(s: &[char]) -> (r: String)
    ensures
        r@ == s@,
{
    let mut out: String = String::new();
    let mut i: usize = 0;
    while i < s.len()
        invariant
            i <= s@.len(),
            out@ == s@.take(i as int),
        decreases s@.len() - i,
    {
        out.push(s[i]);
        i = i + 1;
        proof {
            assert(s@.take(i as int) =~= s@.take(i - 1).push(s@[i - 1]));
        }
    }
    proof {
        assert(s@.take(s@.len() as int) =~= s@);
    }
    out
}

/// Copies a string slice into an owned string.
pub fn owned(s: &str) -> (r: String)
    ensures
        r@ == s@,
{
    let mut out: String = String::new();
    out.push_str(s);
    proof {
        assert(out@ =~= s@);
    }
    out
}

/// The two texts one after the other.
pub fn concat2(a: &str, b: &str) -> (r: String)
    ensures
        r@ == a@ + b@,
{
    let mut out: String = owned(a);
    out.push_str(b);
    out
}

/// The three texts one after the other.
pub fn concat3(a: &str, b: &str, c: &str) -> (r: String)
    ensures
        r@ == a@ + b@ + c@,
{
    let mut out: String = concat2(a, b);
    out.push_str(c);
    out
}

pub fn chars_eq(a: &[char], b: &[char]) -> (r: bool)
    ensures
        r == (a@ == b@),
{
    if a.len() != b.len() {
        return false;
    }
    let mut i: usize = 0;
    while i < a.len()
        invariant
            a@.len() == b@.len(),
            i <= a@.len(),
            forall|j: int| 0 <= j < i ==> a@[j] == b@[j],
        decreases a@.len() - i,
    {
        if a[i] != b[i] {
            return false;
        }
        i = i + 1;
    }
    proof {
        assert(a@ =~= b@);
    }
    true
}

/// ASCII case folding (`str::to_ascii_lowercase`).
pub fn lower_chars(s: &[char]) -> (r: Vec<char>)
    ensures
        r@ == lower(s@),
{
    let mut out: Vec<char> = Vec::new();
    let mut i: usize = 0;
    while i < s.len()
        invariant
            i <= s@.len(),
            out@ == lower(s@.take(i as int)),
        decreases s@.len() - i,
    {
        out.push(to_lower_char(s[i]));
        i = i + 1;
        proof {
            assert(lower(s@.take(i as int)) =~= lower(s@.take(i - 1)).push(lower_char(s@[i - 1])));
        }
    }
    proof {
        assert(s@.take(s@.len() as int) =~= s@);
    }
    out
}

/// ASCII case folding of a string slice.
pub fn lower_str(s: &str) -> (r: String)
    ensures
        r@ == lower(s@),
{
    let cs: Vec<char> = chars_of(s);
    let low: Vec<char> = lower_chars(cs.as_slice());
    string_of(low.as_slice())
}

/// The two texts are equal up to ASCII case.
pub fn eq_ignore_case(a: &str, b: &str) -> (r: bool)
    ensures
        r == (lower(a@) == lower(b@)),
{
    let x: Vec<char> = chars_of(a);
    let y: Vec<char> = chars_of(b);
    let lx: Vec<char> = lower_chars(x.as_slice());
    let ly: Vec<char> = lower_chars(y.as_slice());
    chars_eq(lx.as_slice(), ly.as_slice())
}

/// A text of ASCII characters only.
pub open spec fn all_ascii(s: Seq<char>) -> bool {
    forall|i: int| 0 <= i < s.len() ==> #[trigger] s[i] as u32 <= 127
}

/// The lower-case form of a text after Unicode's rules.
pub uninterp spec fn unicode_lower(s: Seq<char>) -> Seq<char>;

/// `str::to_lowercase`: the result depends on the text alone, and for a text of
/// ASCII characters it is the ASCII lower-case form. What it is for other
/// characters is left to the name.
#[verifier::external_body]
pub(crate) fn lowercase(s: &str) -> (r: String)
    ensures
        r@ == unicode_lower(s@),
        all_ascii(s@) ==> r@ == lower(s@),
{
    s.to_lowercase()
}

// ---------------------------------------------------------------------------
// Trimming
// ---------------------------------------------------------------------------

/// The sets of characters that are stripped from the ends of a text.
#[derive(Clone, Copy, PartialEq, Eq, Debug)]
pub enum TrimSet {
    Whitespace,
    DotOrSpace,
    AngleBracket,
}

impl TrimSet {
    pub open spec fn has(self, c: char) -> bool {
        match self {
            TrimSet::Whitespace => is_space(c),
            TrimSet::DotOrSpace => c == '.' || c == ' ',
            TrimSet::AngleBracket => c == '<' || c == '>',
        }
    }

    pub fn contains(self, c: char) -> (r: bool)
        ensures
            r == self.has(c),
    {
        match self {
            TrimSet::Whitespace => char_is_space(c),
            TrimSet::DotOrSpace => c == '.' || c == ' ',
            TrimSet::AngleBracket => c == '<' || c == '>',
        }
    }
}

/// The text without its longest prefix made of characters of the set.
pub open spec fn strip_start(s: Seq<char>, set: TrimSet) -> Seq<char>
    decreases s.len(),
{
    if s.len() > 0 && set.has(s[0]) {
        strip_start(s.drop_first(), set)
    } else {
        s
    }
}

/// The text without its longest suffix made of characters of the set.
pub open spec fn strip_end(s: Seq<char>, set: TrimSet) -> Seq<char>
    decreases s.len(),
{
    if s.len() > 0 && set.has(s.last()) {
        strip_end(s.drop_last(), set)
    } else {
        s
    }
}

/// The text without characters of the set at either end.
pub open spec fn strip(s: Seq<char>, set: TrimSet) -> Seq<char> {
    strip_end(strip_start(s, set), set)
}

/// The text without white space at either end.
pub open spec fn trim(s: Seq<char>) -> Seq<char> {
    strip(s, TrimSet::Whitespace)
}

/// A text of nothing but white space.
pub open spec fn is_blank(s: Seq<char>) -> bool {
    forall|i: int| 0 <= i < s.len() ==> is_space(#[trigger] s[i])
}

pub proof fn lemma_strip_start(s: Seq<char>, set: TrimSet, k: int)
    requires
        0 <= k <= s.len(),
        forall|j: int| 0 <= j < k ==> set.has(#[trigger] s[j]),
        k < s.len() ==> !set.has(s[k]),
    ensures
        strip_start(s, set) == s.skip(k),
    decreases s.len(),
{
    if k == 0 {
        assert(s.skip(0) =~= s);
    } else {
        assert(set.has(s[0]));
        lemma_strip_start(s.drop_first(), set, k - 1);
        assert(s.drop_first().skip(k - 1) =~= s.skip(k));
    }
}

pub proof fn lemma_strip_end(s: Seq<char>, set: TrimSet, k: int)
    requires
        0 <= k <= s.len(),
        forall|j: int| k <= j < s.len() ==> set.has(#[trigger] s[j]),
        k > 0 ==> !set.has(s[k - 1]),
    ensures
        strip_end(s, set) == s.take(k),
    decreases s.len(),
{
    if k == s.len() {
        assert(s.take(k) =~= s);
    } else {
        assert(set.has(s[s.len() - 1]));
        lemma_strip_end(s.drop_last(), set, k);
        assert(s.drop_last().take(k) =~= s.take(k));
    }
}

pub fn strip_start_chars(s: &[char], set: TrimSet) -> (r: &[char])
    ensures
        r@ == strip_start(s@, set),
{
    let mut k: usize = 0;
    while k < s.len() && set.contains(s[k])
        invariant
            k <= s@.len(),
            forall|j: int| 0 <= j < k ==> set.has(#[trigger] s@[j]),
        decreases s@.len() - k,
    {
        k = k + 1;
    }
    proof {
        lemma_strip_start(s@, set, k as int);
        assert(s@.skip(k as int) =~= s@.subrange(k as int, s@.len() as int));
    }
    slice_subrange(s, k, s.len())
}

pub fn strip_end_chars(s: &[char], set: TrimSet) -> (r: &[char])
    ensures
        r@ == strip_end(s@, set),
{
    let mut k: usize = s.len();
    while k > 0 && set.contains(s[k - 1])
        invariant
            k <= s@.len(),
            forall|j: int| k <= j < s@.len() ==> set.has(#[trigger] s@[j]),
        decreases k,
    {
        k = k - 1;
    }
    proof {
        lemma_strip_end(s@, set, k as int);
        assert(s@.take(k as int) =~= s@.subrange(0, k as int));
    }
    slice_subrange(s, 0, k)
}

pub fn strip_chars(s: &[char], set: TrimSet) -> (r: &[char])
    ensures
        r@ == strip(s@, set),
{
    strip_end_chars(strip_start_chars(s, set), set)
}

pub fn trim_chars(s: &[char]) -> (r: &[char])
    ensures
        r@ == trim(s@),
{
    strip_chars(s, TrimSet::Whitespace)
}

/// Trimming takes away the white space around a text, all of it and nothing else.
pub proof fn trimming_leaves_the_inside(left: Seq<char>, inside: Seq<char>, right: Seq<char>)
    requires
        is_blank(left),
        is_blank(right),
        inside.len() > 0,
        !is_space(inside[0]),
        !is_space(inside.last()),
    ensures
        trim(left + inside + right) == inside,
{
    let s = left + inside + right;
    let n = left.len() as int;
    assert forall|j: int| 0 <= j < n implies TrimSet::Whitespace.has(#[trigger] s[j]) by {
        assert(s[j] == left[j]);
        assert(is_space(left[j]));
    }
    assert(s[n] == inside[0]);
    lemma_strip_start(s, TrimSet::Whitespace, n);
    let t = s.skip(n);
    assert(t =~= inside + right);
    let m = inside.len() as int;
    assert forall|j: int| m <= j < t.len() implies TrimSet::Whitespace.has(#[trigger] t[j]) by {
        assert(t[j] == right[j - m]);
        assert(is_space(right[j - m]));
    }
    assert(t[m - 1] == inside.last());
    lemma_strip_end(t, TrimSet::Whitespace, m);
    assert(t.take(m) =~= inside);
}

/// `str::trim` as an owned string.
pub fn trim_str(s: &str) -> (r: String)
    ensures
        r@ == trim(s@),
{
    let cs: Vec<char> = chars_of(s);
    string_of(trim_chars(cs.as_slice()))
}

/// `s.trim().is_empty()`.
pub fn blank(s: &str) -> (r: bool)
    ensures
        r == is_blank(s@),
        r == (trim(s@).len() == 0),
{
    let cs: Vec<char> = chars_of(s);
    let t: &[char] = trim_chars(cs.as_slice());
    proof {
        lemma_blank(s@);
    }
    t.len() == 0
}

/// Nothing is left of a text after trimming exactly when it is all white space.
pub proof fn lemma_blank(s: Seq<char>)
    ensures
        is_blank(s) <==> trim(s).len() == 0,
{
    let t = strip_start(s, TrimSet::Whitespace);
    lemma_strip_start_parts(s, TrimSet::Whitespace);
    lemma_strip_end_parts(t, TrimSet::Whitespace);
    if is_blank(s) {
        lemma_strip_start(s, TrimSet::Whitespace, s.len() as int);
    }
    if trim(s).len() == 0 {
        if t.len() > 0 {
            assert(is_space(t[0]));
        }
    }
}

/// What `strip_start` leaves: a suffix of the text that does not begin with a
/// character of the set, after a prefix of nothing but such characters.
pub proof fn lemma_strip_start_parts(s: Seq<char>, set: TrimSet)
    ensures
        strip_start(s, set).len() <= s.len(),
        strip_start(s, set) == s.skip(s.len() - strip_start(s, set).len()),
        forall|j: int|
            0 <= j < s.len() - strip_start(s, set).len() ==> set.has(#[trigger] s[j]),
        strip_start(s, set).len() > 0 ==> !set.has(strip_start(s, set)[0]),
    decreases s.len(),
{
    if s.len() > 0 && set.has(s[0]) {
        let d = s.drop_first();
        lemma_strip_start_parts(d, set);
        let r = strip_start(d, set);
        assert(s.skip(s.len() - r.len()) =~= d.skip(d.len() - r.len()));
        assert forall|j: int| 0 <= j < s.len() - r.len() implies set.has(#[trigger] s[j]) by {
            if j > 0 {
                assert(d[j - 1] == s[j]);
            }
        }
    } else {
        assert(s.skip(0) =~= s);
    }
}

/// What `strip_end` leaves: a prefix of the text that does not end with a
/// character of the set, before a suffix of nothing but such characters.
pub proof fn lemma_strip_end_parts(s: Seq<char>, set: TrimSet)
    ensures
        strip_end(s, set).len() <= s.len(),
        strip_end(s, set) == s.take(strip_end(s, set).len() as int),
        forall|j: int| strip_end(s, set).len() <= j < s.len() ==> set.has(#[trigger] s[j]),
        strip_end(s, set).len() > 0 ==> !set.has(strip_end(s, set).last()),
    decreases s.len(),
{
    if s.len() > 0 && set.has(s.last()) {
        let d = s.drop_last();
        lemma_strip_end_parts(d, set);
        let r = strip_end(d, set);
        assert(s.take(r.len() as int) =~= d.take(r.len() as int));
        assert forall|j: int| r.len() <= j < s.len() implies set.has(#[trigger] s[j]) by {
            if j < s.len() - 1 {
                assert(d[j] == s[j]);
            }
        }
    } else {
        assert(s.take(s.len() as int) =~= s);
    }
}

// ---------------------------------------------------------------------------
// Searching
// ---------------------------------------------------------------------------

/// `p` stands in `s` from position `i` on.
pub open spec fn matches_at(s: Seq<char>, p: Seq<char>, i: int) -> bool {
    0 <= i && i + p.len() <= s.len() && s.subrange(i, i + p.len()) == p
}

/// `p` occurs somewhere in `s`.
pub open spec fn has_text(s: Seq<char>, p: Seq<char>) -> bool {
    exists|i: int| matches_at(s, p, i)
}

/// `s` begins with `p`.
pub open spec fn starts_with(s: Seq<char>, p: Seq<char>) -> bool {
    matches_at(s, p, 0)
}

/// `s` ends with `p`.
pub open spec fn ends_with(s: Seq<char>, p: Seq<char>) -> bool {
    matches_at(s, p, s.len() - p.len())
}

pub fn chars_match_at(s: &[char], p: &[char], i: usize) -> (r: bool)
    ensures
        r == matches_at(s@, p@, i as int),
{
    if i > s.len() || p.len() > s.len() - i {
        return false;
    }
    let mut k: usize = 0;
    let n: usize = s.len();
    while k < p.len()
        invariant
            n == s@.len(),
            i + p@.len() <= n,
            k <= p@.len(),
            forall|j: int| 0 <= j < k ==> s@[i + j] == #[trigger] p@[j],
        decreases p@.len() - k,
    {
        if s[i + k] != p[k] {
            proof {
                let w = s@.subrange(i as int, i + p@.len());
                assert(w[k as int] == s@[i + k]);
            }
            return false;
        }
        k = k + 1;
    }
    proof {
        assert(s@.subrange(i as int, i + p@.len()) =~= p@);
    }
    true
}

pub fn chars_contain(s: &[char], p: &[char]) -> (r: bool)
    ensures
        r == has_text(s@, p@),
{
    let mut i: usize = 0;
    while i < s.len()
        invariant
            i <= s@.len(),
            forall|j: int| 0 <= j < i ==> !matches_at(s@, p@, j),
        decreases s@.len() - i,
    {
        if chars_match_at(s, p, i) {
            return true;
        }
        i = i + 1;
    }
    chars_match_at(s, p, i)
}

/// `s.contains(p)`.
pub fn contains_str(s: &str, p: &str) -> (r: bool)
    ensures
        r == has_text(s@, p@),
{
    let a: Vec<char> = chars_of(s);
    let b: Vec<char> = chars_of(p);
    chars_contain(a.as_slice(), b.as_slice())
}

/// A letter or digit of ASCII.
pub open spec fn is_word_char(c: char) -> bool {
    ('a' <= c && c <= 'z') || ('A' <= c && c <= 'Z') || ('0' <= c && c <= '9')
}

/// `p` stands at `i` as a word of its own: no letter or digit is next to it.
pub open spec fn word_at(s: Seq<char>, p: Seq<char>, i: int) -> bool {
    &&& matches_at(s, p, i)
    &&& i > 0 ==> !is_word_char(s[i - 1])
    &&& i + p.len() < s.len() ==> !is_word_char(s[i + p.len()])
}

/// `p` stands somewhere in `s` as a word of its own.
pub open spec fn has_word(s: Seq<char>, p: Seq<char>) -> bool {
    exists|i: int| word_at(s, p, i)
}

/// A word is found wherever it stands alone: at either end, or with neither a letter
/// nor a digit beside it; and what is found as a word stands in the text.
pub proof fn words_stand_alone(a: Seq<char>, word: Seq<char>, b: Seq<char>)
    requires
        a.len() == 0 || !(('a' <= a.last() && a.last() <= 'z') || ('A' <= a.last() && a.last()
            <= 'Z') || ('0' <= a.last() && a.last() <= '9')),
        b.len() == 0 || !(('a' <= b[0] && b[0] <= 'z') || ('A' <= b[0] && b[0] <= 'Z') || ('0'
            <= b[0] && b[0] <= '9')),
    ensures
        has_word(a + word + b, word),
        forall|s: Seq<char>| #[trigger] has_word(s, word) ==> has_text(s, word),
{
    let s = a + word + b;
    assert(s.subrange(a.len() as int, (a.len() + word.len()) as int) =~= word);
    assert(word_at(s, word, a.len() as int));
    assert forall|s: Seq<char>| #[trigger] has_word(s, word) implies has_text(s, word) by {
        let i = choose|i: int| word_at(s, word, i);
        assert(matches_at(s, word, i));
    }
}

/// A word that continues in letters or digits is not found: neither at the beginning
/// of a longer one nor at its end.
pub proof fn parts_of_words_are_no_words(word: Seq<char>, tail: char)
    requires
        word.len() > 0,
        ('a' <= tail && tail <= 'z') || ('A' <= tail && tail <= 'Z') || ('0' <= tail && tail
            <= '9'),
        forall|i: int| 0 <= i < word.len() ==> word[i] != tail,
    ensures
        !has_word(word.push(tail), word),
        !has_word(seq![tail] + word, word),
{
    let s = word.push(tail);
    let t = seq![tail] + word;
    if has_word(s, word) {
        let i = choose|i: int| word_at(s, word, i);
        if i == 1 {
            assert(s.subrange(1, (1 + word.len()) as int)[word.len() - 1] == tail);
        }
        assert(i == 0);
    }
    if has_word(t, word) {
        let i = choose|i: int| word_at(t, word, i);
        if i == 0 {
            assert(t.subrange(0, word.len() as int)[0] == tail);
        }
        assert(i == 1);
    }
}

fn word_char(c: char) -> (r: bool)
    ensures
        r == is_word_char(c),
{
    ('a' <= c && c <= 'z') || ('A' <= c && c <= 'Z') || ('0' <= c && c <= '9')
}

pub fn contains_word(s: &str, p: &str) -> (r: bool)
    requires
        p@.len() > 0,
    ensures
        r == has_word(s@, p@),
{
    let a: Vec<char> = chars_of(s);
    let b: Vec<char> = chars_of(p);
    let mut i: usize = 0;
    while i < a.len()
        invariant
            i <= a@.len(),
            a@ == s@,
            b@ == p@,
            forall|j: int| 0 <= j < i ==> !word_at(s@, p@, j),
        decreases a@.len() - i,
    {
        if chars_match_at(a.as_slice(), b.as_slice(), i) {
            let before: bool = i > 0 && word_char(a[i - 1]);
            let rest: usize = a.len() - i;
            let after: bool = b.len() < rest && word_char(a[i + b.len()]);
            if !before && !after {
                proof {
                    assert(word_at(s@, p@, i as int));
                }
                return true;
            }
        }
        i = i + 1;
    }
    false
}

/// `s.starts_with(p)`.
pub fn starts_with_str(s: &str, p: &str) -> (r: bool)
    ensures
        r == starts_with(s@, p@),
{
    let a: Vec<char> = chars_of(s);
    let b: Vec<char> = chars_of(p);
    chars_match_at(a.as_slice(), b.as_slice(), 0)
}

/// `s.ends_with(p)`.
pub fn ends_with_str(s: &str, p: &str) -> (r: bool)
    ensures
        r == ends_with(s@, p@),
{
    let a: Vec<char> = chars_of(s);
    let b: Vec<char> = chars_of(p);
    if b.len() > a.len() {
        return false;
    }
    chars_match_at(a.as_slice(), b.as_slice(), a.len() - b.len())
}

/// `s.to_ascii_lowercase().starts_with(p)`.
pub fn starts_with_ignore_case(s: &str, p: &str) -> (r: bool)
    ensures
        r == starts_with(lower(s@), p@),
{
    let a: Vec<char> = chars_of(s);
    let b: Vec<char> = chars_of(p);
    let low: Vec<char> = lower_chars(a.as_slice());
    chars_match_at(low.as_slice(), b.as_slice(), 0)
}

/// The position of the first `c`, or the length of the text where there is none.
pub open spec fn find_char(s: Seq<char>, c: char) -> int
    decreases s.len(),
{
    if s.len() == 0 || s[0] == c {
        0
    } else {
        1 + find_char(s.drop_first(), c)
    }
}

pub proof fn lemma_find_char(s: Seq<char>, c: char)
    ensures
        0 <= find_char(s, c) <= s.len(),
        forall|j: int| 0 <= j < find_char(s, c) ==> #[trigger] s[j] != c,
        find_char(s, c) < s.len() ==> s[find_char(s, c)] == c,
    decreases s.len(),
{
    if s.len() > 0 && s[0] != c {
        let d = s.drop_first();
        lemma_find_char(d, c);
        assert forall|j: int| 0 <= j < find_char(s, c) implies #[trigger] s[j] != c by {
            if j > 0 {
                assert(d[j - 1] == s[j]);
            }
        }
    }
}

pub proof fn lemma_find_char_is(s: Seq<char>, c: char, k: int)
    requires
        0 <= k <= s.len(),
        forall|j: int| 0 <= j < k ==> #[trigger] s[j] != c,
        k < s.len() ==> s[k] == c,
    ensures
        find_char(s, c) == k,
{
    lemma_find_char(s, c);
    let f = find_char(s, c);
    if f < k {
        assert(s[f] != c);
    } else if k < f {
        assert(s[k] != c);
    }
}

pub fn find_char_in(s: &[char], c: char) -> (r: usize)
    ensures
        r == find_char(s@, c),
        r <= s@.len(),
{
    let mut k: usize = 0;
    while k < s.len() && s[k] != c
        invariant
            k <= s@.len(),
            forall|j: int| 0 <= j < k ==> #[trigger] s@[j] != c,
        decreases s@.len() - k,
    {
        k = k + 1;
    }
    proof {
        lemma_find_char_is(s@, c, k as int);
    }
    k
}

// ---------------------------------------------------------------------------
// Splitting
// ---------------------------------------------------------------------------

/// `s.split(c)`: the pieces between the occurrences of `c`.
pub open spec fn split(s: Seq<char>, c: char) -> Seq<Seq<char>>
    decreases s.len(),
    via split_decreases
{
    let i = find_char(s, c);
    if i >= s.len() {
        seq![s]
    } else {
        seq![s.take(i)] + split(s.skip(i + 1), c)
    }
}

#[via_fn]
proof fn split_decreases(s: Seq<char>, c: char) {
    lemma_find_char(s, c);
}

/// `s.split_once(c)`.
pub open spec fn split_once(s: Seq<char>, c: char) -> Option<(Seq<char>, Seq<char>)> {
    let i = find_char(s, c);
    if i < s.len() {
        Some((s.take(i), s.skip(i + 1)))
    } else {
        None
    }
}

/// The text up to the first `c`.
pub open spec fn before(s: Seq<char>, c: char) -> Seq<char> {
    s.take(find_char(s, c))
}

/// The characters of every piece.
pub open spec fn pieces(v: Seq<Vec<char>>) -> Seq<Seq<char>> {
    v.map_values(|x: Vec<char>| x@)
}

pub fn split_chars(s: &[char], c: char) -> (r: Vec<Vec<char>>)
    ensures
        pieces(r@) == split(s@, c),
{
    let mut out: Vec<Vec<char>> = Vec::new();
    let mut from: usize = 0;
    proof {
        assert(s@.skip(0) =~= s@);
        assert(pieces(out@) + split(s@, c) =~= split(s@, c));
    }
    loop
        invariant
            from <= s@.len(),
            pieces(out@) + split(s@.skip(from as int), c) == split(s@, c),
        decreases s@.len() - from,
    {
        let rest: &[char] = slice_subrange(s, from, s.len());
        let ghost before_push = pieces(out@);
        proof {
            assert(rest@ =~= s@.skip(from as int));
            lemma_find_char(rest@, c);
        }
        let i: usize = find_char_in(rest, c);
        if i >= rest.len() {
            out.push(vstd::slice::slice_to_vec(rest));
            proof {
                assert(pieces(out@) =~= before_push.push(rest@));
                assert(before_push + seq![rest@] =~= before_push.push(rest@));
            }
            return out;
        }
        let piece: &[char] = slice_subrange(rest, 0, i);
        out.push(vstd::slice::slice_to_vec(piece));
        proof {
            assert(piece@ =~= rest@.take(i as int));
            assert(rest@.skip(i + 1) =~= s@.skip(from + i + 1));
            assert(pieces(out@) =~= before_push.push(piece@));
            assert(before_push + (seq![piece@] + split(s@.skip(from + i + 1), c))
                =~= before_push.push(piece@) + split(s@.skip(from + i + 1), c));
        }
        from = from + i + 1;
    }
}

/// The text up to the first `c` as an owned string.
pub fn before_char(s: &str, c: char) -> (r: String)
    ensures
        r@ == before(s@, c),
{
    let cs: Vec<char> = chars_of(s);
    let i: usize = find_char_in(cs.as_slice(), c);
    proof {
        assert(cs@.subrange(0, i as int) =~= cs@.take(i as int));
    }
    string_of(slice_subrange(cs.as_slice(), 0, i))
}

/// Splitting loses nothing: the pieces with the separator between them are the
/// text again, and no piece holds the separator.
pub proof fn splitting_loses_nothing(s: Seq<char>, c: char)
    ensures
        join(split(s, c), seq![c]) == s,
        split(s, c).len() > 0,
        forall|k: int, i: int|
            #![trigger split(s, c)[k][i]]
            0 <= k < split(s, c).len() && 0 <= i < split(s, c)[k].len() ==> split(s, c)[k][i] != c,
    decreases s.len(),
{
    lemma_find_char(s, c);
    let i = find_char(s, c);
    let all = split(s, c);
    if i >= s.len() {
        assert(all =~= seq![s]);
        assert(all[0] == s);
    } else {
        let head = s.take(i);
        let rest = s.skip(i + 1);
        let tail = split(rest, c);
        splitting_loses_nothing(rest, c);
        assert(all == seq![head] + tail);
        assert(all.take(1) =~= seq![head]);
        assert(all.skip(1) =~= tail);
        joining_keeps_every_part(all, seq![c], 1);
        assert(join(seq![head], seq![c]) == head);
        assert(head + seq![c] + rest =~= s);
        assert forall|k: int, j: int|
            #![trigger all[k][j]]
            0 <= k < all.len() && 0 <= j < all[k].len() implies all[k][j] != c by {
            if k == 0 {
                assert(head[j] == s[j]);
            } else {
                assert(all[k] == tail[k - 1]);
                assert(tail[k - 1][j] != c);
            }
        }
    }
}

/// A text is split at the first separator, where it has one.
pub proof fn texts_are_split_at_the_first(a: Seq<char>, c: char, b: Seq<char>)
    requires
        forall|i: int| 0 <= i < a.len() ==> a[i] != c,
    ensures
        split_once(a + seq![c] + b, c) == Some((a, b)),
        split_once(a, c) is None,
        before(a + seq![c] + b, c) == a,
        before(a, c) == a,
{
    let s = a + seq![c] + b;
    let n = a.len() as int;
    assert forall|j: int| 0 <= j < n implies #[trigger] s[j] != c by {
        assert(s[j] == a[j]);
    }
    assert(s[n] == c);
    lemma_find_char_is(s, c, n);
    lemma_find_char_is(a, c, n);
    assert(s.take(n) =~= a);
    assert(s.skip(n + 1) =~= b);
    assert(a.take(n) =~= a);
}

// ---------------------------------------------------------------------------
// Joining
// ---------------------------------------------------------------------------

/// `parts.join(sep)`.
pub open spec fn join(parts: Seq<Seq<char>>, sep: Seq<char>) -> Seq<char>
    decreases parts.len(),
{
    if parts.len() == 0 {
        Seq::empty()
    } else if parts.len() == 1 {
        parts[0]
    } else {
        join(parts.drop_last(), sep) + sep + parts.last()
    }
}

/// Joining keeps every part, in order, and puts the separator between any two
/// neighbours and nowhere else.
pub proof fn joining_keeps_every_part(parts: Seq<Seq<char>>, sep: Seq<char>, k: int)
    requires
        0 < k < parts.len(),
    ensures
        join(parts, sep) == join(parts.take(k), sep) + sep + join(parts.skip(k), sep),
        join(seq![parts[0]], sep) == parts[0],
        join(parts.take(0), sep).len() == 0,
    decreases parts.len(),
{
    let n = parts.len() as int;
    if k == n - 1 {
        assert(parts.take(k) =~= parts.drop_last());
        assert(parts.skip(k) =~= seq![parts.last()]);
    } else {
        let front = parts.drop_last();
        joining_keeps_every_part(front, sep, k);
        assert(front.take(k) =~= parts.take(k));
        assert(parts.skip(k).drop_last() =~= front.skip(k));
        assert(parts.skip(k).last() == parts.last());
        let a = join(front.take(k), sep);
        let b = join(front.skip(k), sep);
        assert(a + sep + b + sep + parts.last() =~= a + sep + (b + sep + parts.last()));
    }
}

pub fn join_texts(parts: &Vec<String>, sep: &str) -> (r: String)
    ensures
        r@ == join(texts(parts@), sep@),
{
    let mut out: String = String::new();
    let mut i: usize = 0;
    while i < parts.len()
        invariant
            i <= parts@.len(),
            out@ == join(texts(parts@.take(i as int)), sep@),
        decreases parts@.len() - i,
    {
        let ghost prev = texts(parts@.take(i as int));
        let ghost next = texts(parts@.take(i + 1));
        proof {
            assert(next.drop_last() =~= prev);
            assert(next.last() == parts@[i as int]@);
        }
        if i == 0 {
            out = parts[i].clone();
        } else {
            out.push_str(sep);
            out.push_str(parts[i].as_str());
        }
        i = i + 1;
    }
    proof {
        assert(parts@.take(parts@.len() as int) =~= parts@);
    }
    out
}

// ---------------------------------------------------------------------------
// Decimal numbers
// ---------------------------------------------------------------------------

pub open spec fn digit(n: int) -> char {
    (('0' as u32) + n) as char
}

/// The decimal form of a natural number.
pub open spec fn decimal(n: nat) -> Seq<char>
    decreases n,
{
    if n < 10 {
        seq![digit(n as int)]
    } else {
        decimal(n / 10).push(digit((n % 10) as int))
    }
}

/// The decimal form of an integer.
pub open spec fn decimal_int(n: int) -> Seq<char> {
    if n < 0 {
        seq!['-'] + decimal((-n) as nat)
    } else {
        decimal(n as nat)
    }
}

fn digit_char(n: u8) -> (r: char)
    requires
        n < 10,
    ensures
        r == digit(n as int),
{
    let b: u8 = 48 + n;
    b as char
}

/// `n.to_string()`.
pub fn u64_text(n: u64) -> (r: String)
    ensures
        r@ == decimal(n as nat),
    decreases n,
{
    if n < 10 {
        let mut s: String = String::new();
        s.push(digit_char(n as u8));
        proof {
            assert(s@ =~= seq![digit(n as int)]);
        }
        s
    } else {
        let mut s: String = u64_text(n / 10);
        s.push(digit_char((n % 10) as u8));
        s
    }
}

/// `n.to_string()`.
pub fn i64_text(n: i64) -> (r: String)
    ensures
        r@ == decimal_int(n as int),
{
    if n < 0 {
        let mut s: String = String::new();
        s.push('-');
        let m: u64 = if n == i64::MIN {
            9223372036854775808u64
        } else {
            (-n) as u64
        };
        let t: String = u64_text(m);
        s.push_str(t.as_str());
        proof {
            assert(Seq::<char>::empty().push('-') =~= seq!['-']);
        }
        s
    } else {
        u64_text(n as u64)
    }
}

/// The number that a run of decimal digits stands for.
pub open spec fn digits_value(s: Seq<char>) -> int
    decreases s.len(),
{
    if s.len() == 0 {
        0
    } else {
        digits_value(s.drop_last()) * 10 + (s.last() as int - '0' as int)
    }
}

pub open spec fn all_digits(s: Seq<char>) -> bool {
    forall|i: int| 0 <= i < s.len() ==> is_digit(#[trigger] s[i])
}

/// The integer that a text stands for: an optional sign and at least one
/// decimal digit.
pub open spec fn parsed_int(s: Seq<char>) -> Option<int> {
    if s.len() > 0 && (s[0] == '-' || s[0] == '+') {
        let d = s.drop_first();
        if d.len() == 0 || !all_digits(d) {
            None
        } else if s[0] == '-' {
            Some(-digits_value(d))
        } else {
            Some(digits_value(d))
        }
    } else if s.len() == 0 || !all_digits(s) {
        None
    } else {
        Some(digits_value(s))
    }
}

/// `s.parse::<i64>().ok()`: the integer of the text, where it has one that
/// fits 64 bits.
pub open spec fn parsed_i64(s: Seq<char>) -> Option<i64> {
    match parsed_int(s) {
        Some(n) => if i64::MIN <= n <= i64::MAX {
            Some(n as i64)
        } else {
            None
        },
        None => None,
    }
}

proof fn lemma_digits_grow(s: Seq<char>, k: int)
    requires
        0 <= k <= s.len(),
        all_digits(s),
    ensures
        0 <= digits_value(s.take(k)) <= digits_value(s),
    decreases s.len() - k, k,
{
    if k == s.len() {
        assert(s.take(k) =~= s);
        if k > 0 {
            lemma_digits_nonneg(s);
        }
    } else {
        lemma_digits_grow(s, k + 1);
        let t = s.take(k + 1);
        assert(t.drop_last() =~= s.take(k));
        assert(is_digit(s[k]));
        assert forall|i: int| 0 <= i < k implies is_digit(#[trigger] s.take(k)[i]) by {
            assert(is_digit(s[i]));
        }
        lemma_digits_nonneg(s.take(k));
    }
}

proof fn lemma_digits_nonneg(s: Seq<char>)
    requires
        all_digits(s),
    ensures
        digits_value(s) >= 0,
    decreases s.len(),
{
    if s.len() > 0 {
        assert forall|i: int| 0 <= i < s.len() - 1 implies is_digit(
            #[trigger] s.drop_last()[i],
        ) by {
            assert(is_digit(s[i]));
        }
        lemma_digits_nonneg(s.drop_last());
        assert(is_digit(s[s.len() - 1]));
    }
}

/// A number that was written is read back as itself.
pub proof fn numbers_are_read_back(n: i64)
    ensures
        parsed_i64(decimal_int(n as int)) == Some(n),
{
    if n < 0 {
        let m = (-(n as int)) as nat;
        lemma_decimal_digits(m);
        let s = decimal_int(n as int);
        assert(s.drop_first() =~= decimal(m));
        assert(s[0] == '-');
    } else {
        lemma_decimal_digits(n as nat);
        assert(is_digit(decimal(n as nat)[0]));
    }
}

proof fn lemma_decimal_digits(n: nat)
    ensures
        decimal(n).len() > 0,
        all_digits(decimal(n)),
        digits_value(decimal(n)) == n,
    decreases n,
{
    let s = decimal(n);
    if n < 10 {
        assert(s =~= seq![digit(n as int)]);
        assert(s.drop_last() =~= Seq::<char>::empty());
        assert(digits_value(s.drop_last()) == 0);
        assert(is_digit(s[0]));
    } else {
        lemma_decimal_digits(n / 10);
        let rest = decimal(n / 10);
        assert(s.drop_last() =~= rest);
        assert forall|i: int| 0 <= i < s.len() implies is_digit(#[trigger] s[i]) by {
            if i < rest.len() {
                assert(is_digit(rest[i]));
            }
        }
    }
}

/// The value of a run of digits, or `None` where it is not a run of digits or
/// exceeds the bound.
fn bounded_digits(s: &[char], bound: u64) -> (r: Option<u64>)
    requires
        bound <= 9223372036854775808u64,
    ensures
        match r {
            Some(n) => all_digits(s@) && digits_value(s@) == n && n <= bound,
            None => !all_digits(s@) || digits_value(s@) > bound,
        },
{
    let mut i: usize = 0;
    while i < s.len()
        invariant
            i <= s@.len(),
            forall|j: int| 0 <= j < i ==> is_digit(#[trigger] s@[j]),
        decreases s@.len() - i,
    {
        if !('0' <= s[i] && s[i] <= '9') {
            proof {
                assert(!is_digit(s@[i as int]));
            }
            return None;
        }
        i = i + 1;
    }
    let mut value: u64 = 0;
    let mut k: usize = 0;
    while k < s.len()
        invariant
            bound <= 9223372036854775808u64,
            k <= s@.len(),
            all_digits(s@),
            value == digits_value(s@.take(k as int)),
            value <= bound,
        decreases s@.len() - k,
    {
        proof {
            assert(is_digit(s@[k as int]));
            assert(s@.take(k + 1).drop_last() =~= s@.take(k as int));
            lemma_digits_grow(s@, k + 1);
        }
        let c: char = s[k];
        let d: u64 = (c as u64) - 48;
        let wide: u128 = (value as u128) * 10 + (d as u128);
        if wide > bound as u128 {
            return None;
        }
        value = wide as u64;
        k = k + 1;
    }
    proof {
        assert(s@.take(s@.len() as int) =~= s@);
    }
    Some(value)
}

/// `s.parse::<i64>().ok()`.
pub fn parse_i64(s: &str) -> (r: Option<i64>)
    ensures
        r == parsed_i64(s@),
{
    let cs: Vec<char> = chars_of(s);
    if cs.len() == 0 {
        return None;
    }
    if cs[0] == '-' || cs[0] == '+' {
        let rest: &[char] = slice_subrange(cs.as_slice(), 1, cs.len());
        proof {
            assert(rest@ =~= s@.drop_first());
        }
        if rest.len() == 0 {
            return None;
        }
        proof {
            if all_digits(rest@) {
                lemma_digits_nonneg(rest@);
            }
        }
        if cs[0] == '-' {
            match bounded_digits(rest, 9223372036854775808u64) {
                Some(n) => {
                    if n == 9223372036854775808u64 {
                        Some(i64::MIN)
                    } else {
                        Some(-(n as i64))
                    }
                },
                None => None,
            }
        } else {
            match bounded_digits(rest, 9223372036854775807u64) {
                Some(n) => Some(n as i64),
                None => None,
            }
        }
    } else {
        proof {
            if all_digits(cs@) {
                lemma_digits_nonneg(cs@);
            }
        }
        match bounded_digits(cs.as_slice(), 9223372036854775807u64) {
            Some(n) => Some(n as i64),
            None => None,
        }
    }
}

// ---------------------------------------------------------------------------
// Order
// ---------------------------------------------------------------------------

/// The order of strings: character by character, a prefix before its
/// extensions.
pub open spec fn lex_le(a: Seq<char>, b: Seq<char>) -> bool
    decreases a.len(),
{
    if a.len() == 0 {
        true
    } else if b.len() == 0 {
        false
    } else if a[0] == b[0] {
        lex_le(a.drop_first(), b.drop_first())
    } else {
        a[0] < b[0]
    }
}

pub proof fn lemma_lex_total(a: Seq<char>, b: Seq<char>)
    ensures
        lex_le(a, b) || lex_le(b, a),
        lex_le(a, b) && lex_le(b, a) ==> a == b,
    decreases a.len(),
{
    if a.len() > 0 && b.len() > 0 {
        if a[0] == b[0] {
            lemma_lex_total(a.drop_first(), b.drop_first());
            if lex_le(a, b) && lex_le(b, a) {
                assert(a =~= seq![a[0]] + a.drop_first());
                assert(b =~= seq![b[0]] + b.drop_first());
            }
        }
    } else if a.len() == 0 && b.len() == 0 {
        assert(a =~= b);
    }
}

pub proof fn lemma_lex_trans(a: Seq<char>, b: Seq<char>, c: Seq<char>)
    requires
        lex_le(a, b),
        lex_le(b, c),
    ensures
        lex_le(a, c),
    decreases a.len(),
{
    if a.len() > 0 && b.len() > 0 && c.len() > 0 && a[0] == b[0] && b[0] == c[0] {
        lemma_lex_trans(a.drop_first(), b.drop_first(), c.drop_first());
    }
}

pub fn lex_le_chars(a: &[char], b: &[char]) -> (r: bool)
    ensures
        r == lex_le(a@, b@),
{
    let mut i: usize = 0;
    proof {
        assert(a@.skip(0) =~= a@);
        assert(b@.skip(0) =~= b@);
    }
    loop
        invariant
            i <= a@.len(),
            i <= b@.len(),
            lex_le(a@.skip(i as int), b@.skip(i as int)) == lex_le(a@, b@),
        decreases a@.len() - i,
    {
        if i == a.len() {
            return true;
        }
        if i == b.len() {
            return false;
        }
        if a[i] != b[i] {
            return a[i] < b[i];
        }
        proof {
            assert(a@.skip(i as int).drop_first() =~= a@.skip(i + 1));
            assert(b@.skip(i as int).drop_first() =~= b@.skip(i + 1));
        }
        i = i + 1;
    }
}

pub fn lex_le_str(a: &str, b: &str) -> (r: bool)
    ensures
        r == lex_le(a@, b@),
{
    let x: Vec<char> = chars_of(a);
    let y: Vec<char> = chars_of(b);
    lex_le_chars(x.as_slice(), y.as_slice())
}

} // verus!
