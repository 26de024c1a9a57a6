//! Character-level helpers shared by the parsers of this crate.
//!
//! Text is handled as sequences of `char`. Every function here states its
//! result over `Seq<char>`, so that the parsers built on top can be read
//! as plain mathematics.
use vstd::prelude::*;

verus! {

/// `String::push` appends one character.
pub assume_specification[ String::push ](s: &mut String, c: char)
    ensures
        final(s)@ == old(s)@.push(c),
;

/// The extended grapheme clusters of a text, in order: what a reader
/// takes for its characters.
pub uninterp spec fn grapheme_clusters(text: Seq<char>) -> Seq<Seq<char>>;

/// Calls `unicode_segmentation::UnicodeSegmentation::graphemes` for the
/// extended grapheme clusters. The result is a function of the text
/// alone.
#[verifier::external_body]
pub(crate) fn graphemes(text: &str) -> (out: Vec<String>)
    ensures
        out@.map_values(|g: String| g@) == grapheme_clusters(text@),
{
    unicode_segmentation::UnicodeSegmentation::graphemes(text, true).map(|g| g.to_string()).collect()
}

/// Characters with the Unicode `White_Space` property.
pub open spec fn is_whitespace(c: char) -> bool {
    let n = c as u32;
    (0x09 <= n && n <= 0x0D) || n == 0x20 || n == 0x85 || n == 0xA0 || n == 0x1680 || (0x2000 <= n
        && n <= 0x200A) || n == 0x2028 || n == 0x2029 || n == 0x202F || n == 0x205F || n == 0x3000
}

/// The five characters that ASCII counts as whitespace: space, tab, line
/// feed, form feed and carriage return.
pub open spec fn is_ascii_whitespace(c: char) -> bool {
    c == ' ' || c == '\t' || c == '\n' || c == '\u{0C}' || c == '\r'
}

/// The digits `0` to `9`.
pub open spec fn is_ascii_digit(c: char) -> bool {
    '0' <= c && c <= '9'
}

/// ASCII punctuation: every printable ASCII character that is neither a
/// letter, a digit nor the space.
pub open spec fn is_ascii_punctuation(c: char) -> bool {
    ('!' <= c && c <= '/') || (':' <= c && c <= '@') || ('[' <= c && c <= '`') || ('{' <= c && c
        <= '~')
}

/// The capital of a small ASCII letter; any other character as it
/// is.
pub open spec fn ascii_upper(c: char) -> char {
    if 'a' <= c && c <= 'z' {
        ((c as u8) - 32) as char
    } else {
        c
    }
}

/// The small letter of an ASCII capital; any other character as it
/// is.
pub open spec fn ascii_lower(c: char) -> char {
    if 'A' <= c && c <= 'Z' {
        ((c as u8) + 32) as char
    } else {
        c
    }
}

/// `s` with its small ASCII letters as capitals.
pub open spec fn upper_text(s: Seq<char>) -> Seq<char> {
    s.map_values(|c: char| ascii_upper(c))
}

/// `s` with its ASCII capitals as small letters.
pub open spec fn lower_text(s: Seq<char>) -> Seq<char> {
    s.map_values(|c: char| ascii_lower(c))
}

/// `s` with every occurrence of `from` replaced by `to`.
pub open spec fn replace_char(s: Seq<char>, from: char, to: char) -> Seq<char> {
    s.map_values(
        |c: char|
            if c == from {
                to
            } else {
                c
            },
    )
}

/// Number of leading whitespace characters of `s`.
pub open spec fn leading_whitespace(s: Seq<char>) -> nat
    decreases s.len(),
{
    if s.len() > 0 && is_whitespace(s[0]) {
        1 + leading_whitespace(s.drop_first())
    } else {
        0
    }
}

/// Number of trailing whitespace characters of `s`.
pub open spec fn trailing_whitespace(s: Seq<char>) -> nat
    decreases s.len(),
{
    if s.len() > 0 && is_whitespace(s.last()) {
        1 + trailing_whitespace(s.drop_last())
    } else {
        0
    }
}

/// `s` without its leading whitespace.
pub open spec fn trim_start(s: Seq<char>) -> Seq<char> {
    s.skip(leading_whitespace(s) as int)
}

/// `s` without its trailing whitespace.
pub open spec fn trim_end(s: Seq<char>) -> Seq<char> {
    s.take(s.len() - trailing_whitespace(s))
}

/// `s` without its leading and trailing whitespace.
pub open spec fn trim(s: Seq<char>) -> Seq<char> {
    trim_end(trim_start(s))
}

/// Whether every character of `s` is whitespace (true of the empty text).
pub open spec fn is_blank(s: Seq<char>) -> bool {
    forall|i: int| 0 <= i < s.len() ==> is_whitespace(#[trigger] s[i])
}

/// What sets the words of a text apart.
#[derive(Clone, Copy, Debug, PartialEq, Eq, Structural)]
pub enum Separator {
    /// The space alone.
    Space,
    /// The whitespace of ASCII.
    AsciiWhitespace,
    /// All whitespace.
    Whitespace,
}

/// Whether `c` sets words apart.
pub open spec fn separates(by: Separator, c: char) -> bool {
    match by {
        Separator::Space => c == ' ',
        Separator::AsciiWhitespace => is_ascii_whitespace(c),
        Separator::Whitespace => is_whitespace(c),
    }
}

/// Length of the longest prefix of `s` that holds no separator.
pub open spec fn word_len(by: Separator, s: Seq<char>) -> nat
    decreases s.len(),
{
    if s.len() > 0 && !separates(by, s[0]) {
        1 + word_len(by, s.drop_first())
    } else {
        0
    }
}

/// The maximal runs of characters of `s` that hold no separator, in
/// order.
pub open spec fn words(by: Separator, s: Seq<char>) -> Seq<Seq<char>>
    decreases s.len(),
{
    if s.len() == 0 {
        Seq::empty()
    } else if separates(by, s[0]) {
        words(by, s.drop_first())
    } else {
        let n = word_len(by, s) as int;
        if 0 < n <= s.len() {
            seq![s.take(n)] + words(by, s.skip(n))
        } else {
            seq![s]
        }
    }
}

/// The words of `s` that ASCII whitespace sets apart.
pub open spec fn ascii_words(s: Seq<char>) -> Seq<Seq<char>> {
    words(Separator::AsciiWhitespace, s)
}

/// The leading whitespace is a prefix of whitespace that ends before
/// a character that is none, or with the text.
pub proof fn lemma_leading_whitespace_bound(s: Seq<char>)
    ensures
        leading_whitespace(s) <= s.len(),
        forall|i: int| 0 <= i < leading_whitespace(s) ==> is_whitespace(#[trigger] s[i]),
        leading_whitespace(s) < s.len() ==> !is_whitespace(s[leading_whitespace(s) as int]),
    decreases s.len(),
{
    if s.len() > 0 && is_whitespace(s[0]) {
        lemma_leading_whitespace_bound(s.drop_first());
        let t = s.drop_first();
        assert forall|i: int| 0 <= i < leading_whitespace(s) implies is_whitespace(
            #[trigger] s[i],
        ) by {
            if i > 0 {
                assert(s[i] == t[i - 1]);
            }
        }
        if leading_whitespace(s) < s.len() {
            assert(s[leading_whitespace(s) as int] == t[leading_whitespace(t) as int]);
        }
    }
}

/// The trailing whitespace is a suffix of whitespace that starts
/// after a character that is none, or with the text.
pub proof fn lemma_trailing_whitespace_bound(s: Seq<char>)
    ensures
        trailing_whitespace(s) <= s.len(),
        forall|i: int|
            s.len() - trailing_whitespace(s) <= i < s.len() ==> is_whitespace(#[trigger] s[i]),
        trailing_whitespace(s) < s.len() ==> !is_whitespace(
            s[s.len() - trailing_whitespace(s) - 1],
        ),
    decreases s.len(),
{
    if s.len() > 0 && is_whitespace(s.last()) {
        lemma_trailing_whitespace_bound(s.drop_last());
        let t = s.drop_last();
        assert forall|i: int| s.len() - trailing_whitespace(s) <= i < s.len() implies is_whitespace(
            #[trigger] s[i],
        ) by {
            if i < s.len() - 1 {
                assert(s[i] == t[i]);
            }
        }
        if trailing_whitespace(s) < s.len() {
            assert(s[s.len() - trailing_whitespace(s) - 1] == t[t.len() - trailing_whitespace(t)
                - 1]);
        }
    }
}

/// A prefix of whitespace followed by a character that is none fixes the
/// count of leading whitespace.
pub proof fn lemma_leading_whitespace_is(s: Seq<char>, n: int)
    requires
        0 <= n <= s.len(),
        forall|i: int| 0 <= i < n ==> is_whitespace(#[trigger] s[i]),
        n < s.len() ==> !is_whitespace(s[n]),
    ensures
        leading_whitespace(s) == n,
    decreases s.len(),
{
    if n > 0 {
        let t = s.drop_first();
        assert forall|i: int| 0 <= i < n - 1 implies is_whitespace(#[trigger] t[i]) by {
            assert(t[i] == s[i + 1]);
        }
        lemma_leading_whitespace_is(t, n - 1);
    }
}

/// A suffix of whitespace preceded by a character that is none fixes the
/// count of trailing whitespace.
pub proof fn lemma_trailing_whitespace_is(s: Seq<char>, n: int)
    requires
        0 <= n <= s.len(),
        forall|i: int| s.len() - n <= i < s.len() ==> is_whitespace(#[trigger] s[i]),
        n < s.len() ==> !is_whitespace(s[s.len() - n - 1]),
    ensures
        trailing_whitespace(s) == n,
    decreases s.len(),
{
    if n > 0 {
        let t = s.drop_last();
        assert forall|i: int| t.len() - (n - 1) <= i < t.len() implies is_whitespace(
            #[trigger] t[i],
        ) by {
            assert(t[i] == s[i]);
        }
        lemma_trailing_whitespace_is(t, n - 1);
    }
}

/// A run without separators that ends before a separator, or with the
/// text, is the first word.
pub proof fn lemma_word_len_is(by: Separator, s: Seq<char>, n: int)
    requires
        0 <= n <= s.len(),
        forall|i: int| 0 <= i < n ==> !separates(by, #[trigger] s[i]),
        n < s.len() ==> separates(by, s[n]),
    ensures
        word_len(by, s) == n,
    decreases s.len(),
{
    if n > 0 {
        let t = s.drop_first();
        assert forall|i: int| 0 <= i < n - 1 implies !separates(by, #[trigger] t[i]) by {
            assert(t[i] == s[i + 1]);
        }
        lemma_word_len_is(by, t, n - 1);
    }
}

/// Decides whether a character is whitespace.
pub fn char_is_whitespace(c: char) -> (r: bool)
    ensures
        r == is_whitespace(c),
{
    let n: u32 = c as u32;
    (0x09 <= n && n <= 0x0D) || n == 0x20 || n == 0x85 || n == 0xA0 || n == 0x1680 || (0x2000 <= n
        && n <= 0x200A) || n == 0x2028 || n == 0x2029 || n == 0x202F || n == 0x205F || n == 0x3000
}

/// Decides whether a character is whitespace of ASCII.
pub fn char_is_ascii_whitespace(c: char) -> (r: bool)
    ensures
        r == is_ascii_whitespace(c),
{
    c == ' ' || c == '\t' || c == '\n' || c == '\u{0C}' || c == '\r'
}

/// Decides whether a character is a digit.
pub fn char_is_ascii_digit(c: char) -> (r: bool)
    ensures
        r == is_ascii_digit(c),
{
    c >= '0' && c <= '9'
}

/// Decides whether a character is punctuation of ASCII.
pub fn char_is_ascii_punctuation(c: char) -> (r: bool)
    ensures
        r == is_ascii_punctuation(c),
{
    (c >= '!' && c <= '/') || (c >= ':' && c <= '@') || (c >= '[' && c <= '`') || (c >= '{' && c
        <= '~')
}

/// The capital of a small ASCII letter.
pub fn char_to_ascii_upper(c: char) -> (r: char)
    ensures
        r == ascii_upper(c),
{
    if c >= 'a' && c <= 'z' {
        ((c as u8) - 32) as char
    } else {
        c
    }
}

/// The small letter of an ASCII capital.
pub fn char_to_ascii_lower(c: char) -> (r: char)
    ensures
        r == ascii_lower(c),
{
    if c >= 'A' && c <= 'Z' {
        ((c as u8) + 32) as char
    } else {
        c
    }
}

/// The characters of `s`, in order.
pub fn to_chars(s: &str) -> (out: Vec<char>)
    ensures
        out@ == s@,
{
    let mut out: Vec<char> = Vec::new();
    for c in it: s.chars()
        invariant
            it.seq() == s@,
            out@ == s@.take(it.index()),
    {
        out.push(c);
    }
    out
}

/// The string spelled by `chars`.
pub fn to_text(chars: &Vec<char>) -> (s: String)
    ensures
        s@ == chars@,
{
    let mut s = String::new();
    let mut i: usize = 0;
    while i < chars.len()
        invariant
            i <= chars.len(),
            s@ == chars@.take(i as int),
        decreases chars.len() - i,
    {
        s.push(chars[i]);
        i += 1;
    }
    s
}

/// Whether two texts hold the same characters.
pub fn same_text(a: &Vec<char>, b: &Vec<char>) -> (r: bool)
    ensures
        r == (a@ == b@),
{
    if a.len() != b.len() {
        return false;
    }
    let mut i: usize = 0;
    while i < a.len()
        invariant
            i <= a.len(),
            a.len() == b.len(),
            a@.take(i as int) == b@.take(i as int),
        decreases a.len() - i,
    {
        if a[i] != b[i] {
            return false;
        }
        i += 1;
    }
    assert(a@ == a@.take(a.len() as int));
    assert(b@ == b@.take(b.len() as int));
    true
}

/// The characters of `s` from `from` up to, not including, `to`.
pub fn slice(s: &Vec<char>, from: usize, to: usize) -> (out: Vec<char>)
    requires
        from <= to <= s.len(),
    ensures
        out@ == s@.subrange(from as int, to as int),
{
    let mut out: Vec<char> = Vec::new();
    let mut i: usize = from;
    while i < to
        invariant
            from <= i <= to <= s.len(),
            out@ == s@.subrange(from as int, i as int),
        decreases to - i,
    {
        out.push(s[i]);
        i += 1;
    }
    out
}

/// Appends the characters of `tail` to `buffer`.
pub fn append(buffer: &mut Vec<char>, tail: &Vec<char>)
    ensures
        final(buffer)@ == old(buffer)@ + tail@,
{
    let mut i: usize = 0;
    while i < tail.len()
        invariant
            i <= tail.len(),
            buffer@ == old(buffer)@ + tail@.take(i as int),
        decreases tail.len() - i,
    {
        buffer.push(tail[i]);
        i += 1;
    }
}

/// Decides whether a text holds whitespace only.
pub fn is_blank_text(s: &Vec<char>) -> (r: bool)
    ensures
        r == is_blank(s@),
{
    let mut i: usize = 0;
    while i < s.len()
        invariant
            i <= s.len(),
            forall|j: int| 0 <= j < i ==> is_whitespace(#[trigger] s@[j]),
        decreases s.len() - i,
    {
        if !char_is_whitespace(s[i]) {
            return false;
        }
        i += 1;
    }
    true
}

/// `s` without its leading and trailing whitespace.
pub fn trimmed(s: &Vec<char>) -> (out: Vec<char>)
    ensures
        out@ == trim(s@),
{
    let mut start: usize = 0;
    while start < s.len() && char_is_whitespace(s[start])
        invariant
            start <= s.len(),
            forall|j: int| 0 <= j < start ==> is_whitespace(#[trigger] s@[j]),
        decreases s.len() - start,
    {
        start += 1;
    }
    proof {
        lemma_leading_whitespace_is(s@, start as int);
    }
    let mut end: usize = s.len();
    while end > start && char_is_whitespace(s[end - 1])
        invariant
            start <= end <= s.len(),
            forall|j: int| end <= j < s.len() ==> is_whitespace(#[trigger] s@[j]),
        decreases end,
    {
        end -= 1;
    }
    proof {
        let t = s@.skip(start as int);
        lemma_trailing_whitespace_is(t, s.len() - end);
    }
    slice(s, start, end)
}

/// A text with its small ASCII letters as capitals.
pub fn to_upper_text(s: &Vec<char>) -> (out: Vec<char>)
    ensures
        out@ == upper_text(s@),
{
    let mut out: Vec<char> = Vec::new();
    let mut i: usize = 0;
    while i < s.len()
        invariant
            i <= s.len(),
            out@ == upper_text(s@.take(i as int)),
        decreases s.len() - i,
    {
        out.push(char_to_ascii_upper(s[i]));
        i += 1;
    }
    out
}

/// A text with its ASCII capitals as small letters.
pub fn to_lower_text(s: &Vec<char>) -> (out: Vec<char>)
    ensures
        out@ == lower_text(s@),
{
    let mut out: Vec<char> = Vec::new();
    let mut i: usize = 0;
    while i < s.len()
        invariant
            i <= s.len(),
            out@ == lower_text(s@.take(i as int)),
        decreases s.len() - i,
    {
        out.push(char_to_ascii_lower(s[i]));
        i += 1;
    }
    out
}

/// A text with every occurrence of `from` replaced by `to`.
pub fn replaced_char(s: &Vec<char>, from: char, to: char) -> (out: Vec<char>)
    ensures
        out@ == replace_char(s@, from, to),
{
    let mut out: Vec<char> = Vec::new();
    let mut i: usize = 0;
    while i < s.len()
        invariant
            i <= s.len(),
            out@ == replace_char(s@.take(i as int), from, to),
        decreases s.len() - i,
    {
        let c = s[i];
        out.push(
            if c == from {
                to
            } else {
                c
            },
        );
        i += 1;
    }
    out
}

/// The view of a list of texts as a sequence of character sequences.
pub open spec fn texts(v: Seq<Vec<char>>) -> Seq<Seq<char>> {
    v.map_values(|w: Vec<char>| w@)
}

/// Decides whether a character sets words apart.
pub fn char_separates(by: Separator, c: char) -> (r: bool)
    ensures
        r == separates(by, c),
{
    match by {
        Separator::Space => c == ' ',
        Separator::AsciiWhitespace => char_is_ascii_whitespace(c),
        Separator::Whitespace => char_is_whitespace(c),
    }
}

/// Splits `s` at its separators and keeps the pieces that are not empty.
pub fn split(by: Separator, s: &Vec<char>) -> (out: Vec<Vec<char>>)
    ensures
        texts(out@) == words(by, s@),
{
    let mut out: Vec<Vec<char>> = Vec::new();
    let mut i: usize = 0;
    proof {
        assert(s@.skip(0) == s@);
    }
    while i < s.len()
        invariant
            i <= s.len(),
            words(by, s@) == texts(out@) + words(by, s@.skip(i as int)),
        decreases s.len() - i,
    {
        let ghost rest = s@.skip(i as int);
        if char_separates(by, s[i]) {
            assert(rest.drop_first() == s@.skip(i + 1));
            i += 1;
        } else {
            let mut j: usize = i;
            while j < s.len() && !char_separates(by, s[j])
                invariant
                    i <= j <= s.len(),
                    forall|k: int| i <= k < j ==> !separates(by, #[trigger] s@[k]),
                decreases s.len() - j,
            {
                j += 1;
            }
            proof {
                lemma_word_len_is(by, rest, j - i);
                assert(rest.take(j - i) == s@.subrange(i as int, j as int));
                assert(rest.skip(j - i) == s@.skip(j as int));
            }
            let word = slice(s, i, j);
            out.push(word);
            i = j;
        }
    }
    out
}

/// Splits `s` at ASCII whitespace and keeps the pieces that are not
/// empty.
pub fn split_ascii_whitespace(s: &Vec<char>) -> (out: Vec<Vec<char>>)
    ensures
        texts(out@) == ascii_words(s@),
{
    split(Separator::AsciiWhitespace, s)
}

} // verus!
