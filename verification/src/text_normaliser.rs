//! The first stage of synthesis: from what a user wrote to words that can
//! be spoken.
//!
//! Text is transliterated to ASCII, split into words, and each word is
//! brought to capital letters. Numbers are spelled out. Punctuation at
//! the end of a word is kept as a chunk of its own, since it steers the
//! pauses of the speech.
use crate::phonemes::{ipa_string_to_units, ipa_units, punctuation_mark, Punctuation, Unit};
use crate::text::{grapheme_clusters, graphemes, same_text};
use crate::text::{
    append, ascii_words, char_is_ascii_digit, char_is_ascii_punctuation,
    char_is_whitespace, is_ascii_digit, is_ascii_punctuation, is_whitespace,
    leading_whitespace, lemma_leading_whitespace_is, replace_char, replaced_char, slice,
    split_ascii_whitespace, texts, to_chars, to_text, to_upper_text, trailing_whitespace, trim,
    trimmed, upper_text,
};
use vstd::prelude::*;

verus! {

/// The ASCII transliteration of a text.
pub uninterp spec fn transliterated(text: Seq<char>) -> Seq<char>;

/// The English words for the number that a text starts with, where it
/// starts with one that can be spelled.
pub uninterp spec fn cardinal_words(number: Seq<char>) -> Option<Seq<char>>;

/// The English words for a number as an ordinal ("second" for 2), where
/// the text starts with a number that has one.
pub uninterp spec fn ordinal_words(number: Seq<char>) -> Option<Seq<char>>;

/// The English words for an integer, where it can be spelled.
pub uninterp spec fn cardinal_of(number: i64) -> Option<Seq<char>>;

/// The English words for an integer as an ordinal, where it has one.
pub uninterp spec fn ordinal_of(number: i64) -> Option<Seq<char>>;

/// Whether an optional string holds what an optional text does.
pub open spec fn spells(words: Option<String>, text: Option<Seq<char>>) -> bool {
    match words {
        Some(w) => text == Some(w@),
        None => text is None,
    }
}

/// Calls `deunicode::deunicode`. The result is a function of the text
/// alone, here called its transliteration.
#[verifier::external_body]
fn transliterate(text: &str) -> (out: String)
    ensures
        out@ == transliterated(text@),
{
    deunicode::deunicode(text)
}

/// Calls `num2words::Num2Words::parse` and has the number spelled as a
/// cardinal. `None` stands for a text that is no number and for a number
/// that cannot be spelled. Texts with a minus sign are left out: the
/// crate is not known to return on every negative number.
#[verifier::external_body]
fn spell_cardinal(number: &str) -> (words: Option<String>)
    requires
        !number@.contains('-'),
    ensures
        spells(words, cardinal_words(number@)),
{
    match num2words::Num2Words::parse(number) {
        Some(n) => n.to_words().ok(),
        None => None,
    }
}

/// Calls `num2words::Num2Words::parse` and has the number spelled as an
/// ordinal. `None` stands for a text that is no number and for a number
/// without an ordinal.
#[verifier::external_body]
fn spell_ordinal(number: &str) -> (words: Option<String>)
    requires
        !number@.contains('-'),
    ensures
        spells(words, ordinal_words(number@)),
{
    match num2words::Num2Words::parse(number) {
        Some(n) => n.ordinal().to_words().ok(),
        None => None,
    }
}

/// Calls `num2words::Num2Words::new` on an integer and has it spelled as
/// a cardinal.
#[verifier::external_body]
fn spell_cardinal_of(number: i64) -> (words: Option<String>)
    ensures
        spells(words, cardinal_of(number)),
{
    num2words::Num2Words::new(number).cardinal().to_words().ok()
}

/// Calls `num2words::Num2Words::new` on an integer and has it spelled as
/// an ordinal. Negative integers have none.
#[verifier::external_body]
fn spell_ordinal_of(number: i64) -> (words: Option<String>)
    ensures
        spells(words, ordinal_of(number)),
{
    num2words::Num2Words::new(number).ordinal().to_words().ok()
}

/// Why a text cannot be normalised.
#[derive(Clone, Copy, Debug, PartialEq, Eq, Structural)]
pub enum NormaliseError {
    /// A word that looks like an ordinal has no spelling.
    InvalidOrdinal,
    /// A number has no spelling.
    InvalidNumber,
    /// A chunk of units cannot be written as text.
    PronunciationInText,
    /// The content of a `say-as` element is no integer.
    InvalidInteger,
    /// A `say-as` element asks for a reading that is not supported.
    UnsupportedSayAs,
    /// A closing tag without an opening one.
    UnbalancedTags,
}

impl NormaliseError {
    /// The message that describes this error.
    pub open spec fn message_text(self) -> Seq<char> {
        match self {
            NormaliseError::InvalidOrdinal => "invalid ordinal"@,
            NormaliseError::InvalidNumber => "invalid number"@,
            NormaliseError::PronunciationInText => "can't turn pronunciation chunk into text"@,
            NormaliseError::InvalidInteger => "invalid digit found in string"@,
            NormaliseError::UnsupportedSayAs => "unsupported say-as"@,
            NormaliseError::UnbalancedTags => "closing tag without an opening tag"@,
        }
    }

    /// The message that describes this error, as a string.
    pub fn to_string(&self) -> (s: String)
        ensures
            s@ == self.message_text(),
    {
        match self {
            NormaliseError::InvalidOrdinal => "invalid ordinal".to_owned(),
            NormaliseError::InvalidNumber => "invalid number".to_owned(),
            NormaliseError::PronunciationInText => "can't turn pronunciation chunk into text"
                .to_owned(),
            NormaliseError::InvalidInteger => "invalid digit found in string".to_owned(),
            NormaliseError::UnsupportedSayAs => "unsupported say-as".to_owned(),
            NormaliseError::UnbalancedTags => "closing tag without an opening tag".to_owned(),
        }
    }
}

/// The characters that are taken for spaces before a text is split into
/// words: brackets, the dash and the colon.
pub open spec fn is_problem_char(c: char) -> bool {
    c == '[' || c == '(' || c == ')' || c == ']' || c == '-' || c == ':'
}

/// `s` with a space for every bracket, dash and colon.
pub open spec fn without_problem_chars(s: Seq<char>) -> Seq<char> {
    s.map_values(
        |c: char|
            if is_problem_char(c) {
                ' '
            } else {
                c
            },
    )
}

/// The characters that can be synthesised: all but a list of symbols.
pub open spec fn is_valid_char(c: char) -> bool {
    !(c == '!' || c == '"' || c == '\u{A3}' || c == '$' || c == '%' || c == '^' || c == '&' || c
        == '*' || c == '(' || c == ')' || c == '-' || c == '_' || c == '=' || c == '+' || c == '['
        || c == '{' || c == ']' || c == '}' || c == ';' || c == ':' || c == '\'' || c == '@' || c
        == '#' || c == '~' || c == ',' || c == '<' || c == '.' || c == '>' || c == '/' || c == '?'
        || c == '|' || c == '\\' || c == '`' || c == '\u{AC}')
}

/// The valid characters of `s`, in order.
pub open spec fn valid_chars(s: Seq<char>) -> Seq<char>
    decreases s.len(),
{
    if s.len() == 0 {
        Seq::empty()
    } else if is_valid_char(s.last()) {
        valid_chars(s.drop_last()).push(s.last())
    } else {
        valid_chars(s.drop_last())
    }
}

/// A word that is no number, as it is spoken: its valid characters in
/// capitals.
pub open spec fn plain_word(s: Seq<char>) -> Seq<char> {
    upper_text(valid_chars(s))
}

/// Whether a text holds a digit.
pub open spec fn has_digit(s: Seq<char>) -> bool {
    exists|i: int| 0 <= i < s.len() && is_ascii_digit(#[trigger] s[i])
}

/// Number of leading characters of `s` that are no digits.
pub open spec fn leading_non_digits(s: Seq<char>) -> nat
    decreases s.len(),
{
    if s.len() > 0 && !is_ascii_digit(s[0]) {
        1 + leading_non_digits(s.drop_first())
    } else {
        0
    }
}

/// Number of leading characters of `s` that are digits.
pub open spec fn leading_digits(s: Seq<char>) -> nat
    decreases s.len(),
{
    if s.len() > 0 && is_ascii_digit(s[0]) {
        1 + leading_digits(s.drop_first())
    } else {
        0
    }
}

/// A word of one digit and one of the endings `st`, `nd`, `rd`, `th`.
pub open spec fn is_short_ordinal(s: Seq<char>) -> bool {
    &&& s.len() == 3
    &&& is_ascii_digit(s[0])
    &&& (s[1] == 's' && s[2] == 't') || (s[1] == 'n' && s[2] == 'd') || (s[1] == 't' && s[2]
        == 'h') || (s[1] == 'r' && s[2] == 'd')
}

/// A word of digits, full stops and commas only.
pub open spec fn is_bare_number(s: Seq<char>) -> bool {
    &&& s.len() > 0
    &&& forall|i: int|
        0 <= i < s.len() ==> is_ascii_digit(#[trigger] s[i]) || s[i] == '.' || s[i] == ','
}

/// Words as they come from the speller, made ready to be spoken: a space
/// for each hyphen, and capitals.
pub open spec fn spoken(words: Seq<char>) -> Seq<char> {
    upper_text(replace_char(words, '-', ' '))
}

/// The word `s` with its single ampersand spelled out, where trimming it
/// leaves nothing but an ampersand.
pub open spec fn ampersand_spelled(s: Seq<char>) -> Seq<char> {
    if trim(s) == seq!['&'] {
        let k = leading_whitespace(s) as int;
        s.take(k) + seq!['a', 'n', 'd'] + s.skip(k + 1)
    } else {
        s
    }
}

/// The text before the punctuation that ends a word.
pub open spec fn stem(word: Seq<char>) -> Seq<char> {
    if word.len() > 0 && is_ascii_punctuation(word.last()) {
        word.drop_last()
    } else {
        word
    }
}

/// The punctuation mark that ends a word, if it ends with one that has a
/// meaning for speech.
pub open spec fn end_mark(word: Seq<char>) -> Option<Punctuation> {
    if word.len() > 0 && is_ascii_punctuation(word.last()) {
        punctuation_mark(word.last())
    } else {
        None
    }
}

/// A chunk of data that is handed on as one piece, as a value of
/// specifications.
pub enum ChunkModel {
    Text(Seq<char>),
    Break(u64),
    Pronunciation(Seq<Unit>),
    Punct(Punctuation),
}

/// A chunk of data that is handed on as one piece.
#[derive(Clone, Debug, PartialEq, Eq)]
pub enum NormaliserChunk {
    /// Text to be spoken: capital letters, digits spelled out.
    Text(String),
    /// A pause in the speech, in milliseconds.
    Break(u64),
    /// Units to be spoken as they are.
    Pronunciation(Vec<Unit>),
    /// A punctuation mark.
    Punct(Punctuation),
}

impl View for NormaliserChunk {
    type V = ChunkModel;

    open spec fn view(&self) -> ChunkModel {
        match self {
            NormaliserChunk::Text(s) => ChunkModel::Text(s@),
            NormaliserChunk::Break(d) => ChunkModel::Break(*d),
            NormaliserChunk::Pronunciation(u) => ChunkModel::Pronunciation(u@),
            NormaliserChunk::Punct(p) => ChunkModel::Punct(*p),
        }
    }
}

/// The chunks and the text gathered for the next one, while a text is
/// read word by word.
pub struct Draft {
    pub chunks: Seq<ChunkModel>,
    pub buffer: Seq<char>,
}

/// The draft after one more word, spoken as `text` and ended by `mark`.
pub open spec fn with_word(draft: Draft, text: Seq<char>, mark: Option<Punctuation>) -> Draft {
    let buffer = draft.buffer + text;
    match mark {
        Some(p) => Draft {
            chunks: if buffer.len() > 0 {
                draft.chunks.push(ChunkModel::Text(buffer)).push(ChunkModel::Punct(p))
            } else {
                draft.chunks.push(ChunkModel::Punct(p))
            },
            buffer: seq![' '],
        },
        None => Draft { chunks: draft.chunks, buffer: buffer.push(' ') },
    }
}

/// The chunks of a draft once the text has ended: what is left in the
/// buffer, less the space after the last word, is the last chunk.
pub open spec fn finished(draft: Draft) -> Seq<ChunkModel> {
    if draft.buffer.len() > 1 {
        draft.chunks.push(ChunkModel::Text(draft.buffer.drop_last()))
    } else {
        draft.chunks
    }
}

/// The draft of words among which no number is spelled out.
pub open spec fn plain_draft(words: Seq<Seq<char>>) -> Draft
    decreases words.len(),
{
    if words.len() == 0 {
        Draft { chunks: Seq::empty(), buffer: Seq::empty() }
    } else {
        let word = ampersand_spelled(words.last());
        with_word(plain_draft(words.drop_last()), plain_word(stem(word)), end_mark(word))
    }
}

/// The words of a text: it is transliterated, brackets, dashes and
/// colons give way to spaces, and what stands between whitespace is a
/// word.
pub open spec fn words_of(text: Seq<char>) -> Seq<Seq<char>> {
    ascii_words(without_problem_chars(transliterated(text)))
}

/// How chunks read as text: texts are set apart by a space, marks follow
/// directly, breaks are silent. Units have no text.
pub open spec fn rendered(chunks: Seq<ChunkModel>) -> Result<Seq<char>, NormaliseError>
    decreases chunks.len(),
{
    if chunks.len() == 0 {
        Ok(Seq::empty())
    } else {
        match rendered(chunks.drop_last()) {
            Err(e) => Err(e),
            Ok(before) => match chunks.last() {
                ChunkModel::Text(s) => if before.len() > 0 && trailing_whitespace(before) == 0 {
                    Ok(before.push(' ') + s)
                } else {
                    Ok(before + s)
                },
                ChunkModel::Punct(p) => Ok(before.push(p.symbol())),
                ChunkModel::Pronunciation(_) => Err(NormaliseError::PronunciationInText),
                ChunkModel::Break(_) => Ok(before),
            },
        }
    }
}

/// Whether no chunk holds units, so that the chunks read as text.
pub open spec fn is_textual(chunks: Seq<ChunkModel>) -> bool {
    forall|i: int| 0 <= i < chunks.len() ==> !(#[trigger] chunks[i] is Pronunciation)
}

/// Chunks without units can be read as text.
pub proof fn lemma_textual_renders(chunks: Seq<ChunkModel>)
    requires
        is_textual(chunks),
    ensures
        rendered(chunks) is Ok,
    decreases chunks.len(),
{
    if chunks.len() > 0 {
        assert forall|i: int| 0 <= i < chunks.len() - 1 implies !(
        #[trigger] chunks.drop_last()[i] is Pronunciation) by {
            assert(chunks.drop_last()[i] == chunks[i]);
        }
        lemma_textual_renders(chunks.drop_last());
        assert(!(chunks[chunks.len() - 1] is Pronunciation));
    }
}

/// What stands beside the digits of a word, as it is spoken: normalised
/// without regard to numbers, read as text, trimmed.
pub open spec fn beside_number(part: Seq<char>) -> Seq<char> {
    match rendered(finished(plain_draft(words_of(part)))) {
        Ok(t) => trim(t),
        Err(_) => Seq::empty(),
    }
}

/// A word that holds a digit, as it is spoken.
///
/// One digit with an ordinal ending is spelled as an ordinal. A word of
/// digits, full stops and commas is spelled as a number. Any other word
/// is taken as what stands before its first digits, those digits, and
/// what follows them up to the next digit; the rest is not spoken. A
/// word with a dash in it is never a number.
pub open spec fn number_text(word: Seq<char>) -> Result<Seq<char>, NormaliseError> {
    if word.contains('-') {
        Err(NormaliseError::InvalidNumber)
    } else if is_short_ordinal(word) {
        match ordinal_words(word) {
            Some(w) => Ok(spoken(w)),
            None => Err(NormaliseError::InvalidOrdinal),
        }
    } else if is_bare_number(word) {
        match cardinal_words(word) {
            Some(w) => Ok(spoken(w)),
            None => Err(NormaliseError::InvalidNumber),
        }
    } else {
        let a = leading_non_digits(word) as int;
        let b = a + leading_digits(word.skip(a));
        let c = b + leading_non_digits(word.skip(b));
        match cardinal_words(word.subrange(a, b)) {
            None => Err(NormaliseError::InvalidNumber),
            Some(w) => {
                let head = beside_number(word.take(a));
                let tail = beside_number(word.subrange(b, c));
                let front = if head.len() > 0 {
                    head.push(' ') + spoken(w)
                } else {
                    spoken(w)
                };
                if tail.len() > 0 {
                    Ok(front.push(' ') + tail)
                } else {
                    Ok(front)
                }
            },
        }
    }
}

/// A word without its end mark, as it is spoken.
pub open spec fn word_text(s: Seq<char>) -> Result<Seq<char>, NormaliseError> {
    if has_digit(s) {
        number_text(s)
    } else {
        Ok(plain_word(s))
    }
}

/// The draft of the words of a text, numbers spelled out. The first
/// number without a spelling ends it.
pub open spec fn draft(words: Seq<Seq<char>>) -> Result<Draft, NormaliseError>
    decreases words.len(),
{
    if words.len() == 0 {
        Ok(Draft { chunks: Seq::empty(), buffer: Seq::empty() })
    } else {
        match draft(words.drop_last()) {
            Err(e) => Err(e),
            Ok(before) => {
                let word = ampersand_spelled(words.last());
                match word_text(stem(word)) {
                    Err(e) => Err(e),
                    Ok(text) => Ok(with_word(before, text, end_mark(word))),
                }
            },
        }
    }
}

/// The chunks that a text is normalised to.
pub open spec fn normalised(text: Seq<char>) -> Result<Seq<ChunkModel>, NormaliseError> {
    match draft(words_of(text)) {
        Ok(d) => Ok(finished(d)),
        Err(e) => Err(e),
    }
}

/// The chunks of a list, as values of specifications.
pub open spec fn chunk_models(chunks: Seq<NormaliserChunk>) -> Seq<ChunkModel> {
    chunks.map_values(|c: NormaliserChunk| c@)
}

/// Output of the normaliser: a sequence of chunks in the order in which
/// they are spoken.
#[derive(Clone, Debug, Default, PartialEq, Eq)]
pub struct NormalisedText {
    chunks: Vec<NormaliserChunk>,
}

impl View for NormalisedText {
    type V = Seq<ChunkModel>;

    closed spec fn view(&self) -> Seq<ChunkModel> {
        chunk_models(self.chunks@)
    }
}

/// Decides whether a character is taken for a space.
pub fn char_is_problem(c: char) -> (r: bool)
    ensures
        r == is_problem_char(c),
{
    c == '[' || c == '(' || c == ')' || c == ']' || c == '-' || c == ':'
}

/// Decides whether a character can be synthesised.
pub fn valid_char(c: char) -> (r: bool)
    ensures
        r == is_valid_char(c),
{
    !(c == '!' || c == '"' || c == '\u{A3}' || c == '$' || c == '%' || c == '^' || c == '&' || c
        == '*' || c == '(' || c == ')' || c == '-' || c == '_' || c == '=' || c == '+' || c == '['
        || c == '{' || c == ']' || c == '}' || c == ';' || c == ':' || c == '\'' || c == '@' || c
        == '#' || c == '~' || c == ',' || c == '<' || c == '.' || c == '>' || c == '/' || c == '?'
        || c == '|' || c == '\\' || c == '`' || c == '\u{AC}')
}

fn clear_problem_chars(s: &Vec<char>) -> (out: Vec<char>)
    ensures
        out@ == without_problem_chars(s@),
{
    let mut out: Vec<char> = Vec::new();
    let mut i: usize = 0;
    while i < s.len()
        invariant
            i <= s.len(),
            out@ == without_problem_chars(s@.take(i as int)),
        decreases s.len() - i,
    {
        let c = s[i];
        out.push(
            if char_is_problem(c) {
                ' '
            } else {
                c
            },
        );
        i += 1;
    }
    out
}

fn plain_word_of(s: &Vec<char>) -> (out: Vec<char>)
    ensures
        out@ == plain_word(s@),
{
    let mut kept: Vec<char> = Vec::new();
    let mut i: usize = 0;
    while i < s.len()
        invariant
            i <= s.len(),
            kept@ == valid_chars(s@.take(i as int)),
        decreases s.len() - i,
    {
        assert(s@.take(i + 1).drop_last() == s@.take(i as int));
        if valid_char(s[i]) {
            kept.push(s[i]);
        }
        i += 1;
    }
    assert(s@.take(s.len() as int) == s@);
    to_upper_text(&kept)
}

fn contains_digit(s: &Vec<char>) -> (r: bool)
    ensures
        r == has_digit(s@),
{
    let mut i: usize = 0;
    while i < s.len()
        invariant
            i <= s.len(),
            forall|j: int| 0 <= j < i ==> !is_ascii_digit(#[trigger] s@[j]),
        decreases s.len() - i,
    {
        if char_is_ascii_digit(s[i]) {
            return true;
        }
        i += 1;
    }
    false
}

fn contains_minus(s: &Vec<char>) -> (r: bool)
    ensures
        r == s@.contains('-'),
{
    let mut i: usize = 0;
    while i < s.len()
        invariant
            i <= s.len(),
            forall|j: int| 0 <= j < i ==> s@[j] != '-',
        decreases s.len() - i,
    {
        if s[i] == '-' {
            return true;
        }
        i += 1;
    }
    false
}

proof fn lemma_leading_non_digits_is(s: Seq<char>, n: int)
    requires
        0 <= n <= s.len(),
        forall|i: int| 0 <= i < n ==> !is_ascii_digit(#[trigger] s[i]),
        n < s.len() ==> is_ascii_digit(s[n]),
    ensures
        leading_non_digits(s) == n,
    decreases s.len(),
{
    if n > 0 {
        let t = s.drop_first();
        assert forall|i: int| 0 <= i < n - 1 implies !is_ascii_digit(#[trigger] t[i]) by {
            assert(t[i] == s[i + 1]);
        }
        lemma_leading_non_digits_is(t, n - 1);
    }
}

proof fn lemma_leading_digits_is(s: Seq<char>, n: int)
    requires
        0 <= n <= s.len(),
        forall|i: int| 0 <= i < n ==> is_ascii_digit(#[trigger] s[i]),
        n < s.len() ==> !is_ascii_digit(s[n]),
    ensures
        leading_digits(s) == n,
    decreases s.len(),
{
    if n > 0 {
        let t = s.drop_first();
        assert forall|i: int| 0 <= i < n - 1 implies is_ascii_digit(#[trigger] t[i]) by {
            assert(t[i] == s[i + 1]);
        }
        lemma_leading_digits_is(t, n - 1);
    }
}

/// The end of the run of characters that starts at `from` and holds
/// digits only, or none at all.
fn run_end(s: &Vec<char>, from: usize, digits: bool) -> (to: usize)
    requires
        from <= s.len(),
    ensures
        from <= to <= s.len(),
        digits ==> to == from + leading_digits(s@.skip(from as int)),
        !digits ==> to == from + leading_non_digits(s@.skip(from as int)),
{
    let mut to: usize = from;
    while to < s.len() && char_is_ascii_digit(s[to]) == digits
        invariant
            from <= to <= s.len(),
            forall|j: int| from <= j < to ==> is_ascii_digit(#[trigger] s@[j]) == digits,
        decreases s.len() - to,
    {
        to += 1;
    }
    proof {
        let t = s@.skip(from as int);
        if digits {
            lemma_leading_digits_is(t, to - from);
        } else {
            lemma_leading_non_digits_is(t, to - from);
        }
    }
    to
}

fn short_ordinal(s: &Vec<char>) -> (r: bool)
    ensures
        r == is_short_ordinal(s@),
{
    s.len() == 3 && char_is_ascii_digit(s[0]) && ((s[1] == 's' && s[2] == 't') || (s[1] == 'n'
        && s[2] == 'd') || (s[1] == 't' && s[2] == 'h') || (s[1] == 'r' && s[2] == 'd'))
}

fn bare_number(s: &Vec<char>) -> (r: bool)
    ensures
        r == is_bare_number(s@),
{
    if s.len() == 0 {
        return false;
    }
    let mut i: usize = 0;
    while i < s.len()
        invariant
            i <= s.len(),
            forall|j: int|
                0 <= j < i ==> is_ascii_digit(#[trigger] s@[j]) || s@[j] == '.' || s@[j] == ',',
        decreases s.len() - i,
    {
        let c = s[i];
        if !(char_is_ascii_digit(c) || c == '.' || c == ',') {
            return false;
        }
        i += 1;
    }
    true
}

/// Words from the speller, ready to be spoken.
fn spoken_words(words: &str) -> (out: Vec<char>)
    ensures
        out@ == spoken(words@),
{
    let chars = to_chars(words);
    let spaced = replaced_char(&chars, '-', ' ');
    to_upper_text(&spaced)
}

fn spell_ampersand(word: Vec<char>) -> (out: Vec<char>)
    ensures
        out@ == ampersand_spelled(word@),
{
    let t = trimmed(&word);
    if t.len() == 1 && t[0] == '&' {
        assert(t@ == seq!['&']);
        let mut k: usize = 0;
        while k < word.len() && char_is_whitespace(word[k])
            invariant
                k <= word.len(),
                forall|j: int| 0 <= j < k ==> is_whitespace(#[trigger] word@[j]),
            decreases word.len() - k,
        {
            k += 1;
        }
        proof {
            lemma_leading_whitespace_is(word@, k as int);
        }
        let mut out = slice(&word, 0, k);
        out.push('a');
        out.push('n');
        out.push('d');
        let rest = slice(&word, k + 1, word.len());
        append(&mut out, &rest);
        out
    } else {
        word
    }
}

/// Takes one more word into a draft.
fn push_word(
    chunks: &mut Vec<NormaliserChunk>,
    buffer: &mut Vec<char>,
    text: &Vec<char>,
    mark: Option<Punctuation>,
)
    ensures
        (Draft { chunks: chunk_models(final(chunks)@), buffer: final(buffer)@ }) == with_word(
            Draft { chunks: chunk_models(old(chunks)@), buffer: old(buffer)@ },
            text@,
            mark,
        ),
{
    append(buffer, text);
    match mark {
        Some(p) => {
            let ghost before = chunks@;
            if buffer.len() > 0 {
                let chunk = NormaliserChunk::Text(to_text(buffer));
                chunks.push(chunk);
                chunks.push(NormaliserChunk::Punct(p));
                assert(chunk_models(chunks@) == chunk_models(before).push(
                    ChunkModel::Text(buffer@),
                ).push(ChunkModel::Punct(p)));
            } else {
                chunks.push(NormaliserChunk::Punct(p));
                assert(chunk_models(chunks@) == chunk_models(before).push(ChunkModel::Punct(p)));
            }
            buffer.clear();
            buffer.push(' ');
        },
        None => {
            buffer.push(' ');
        },
    }
}

/// Closes a draft.
fn finish(chunks: Vec<NormaliserChunk>, buffer: Vec<char>) -> (out: NormalisedText)
    ensures
        out@ == finished(Draft { chunks: chunk_models(chunks@), buffer: buffer@ }),
{
    let mut chunks = chunks;
    let mut buffer = buffer;
    if buffer.len() > 1 {
        buffer.pop();
        chunks.push(NormaliserChunk::Text(to_text(&buffer)));
    }
    NormalisedText { chunks }
}

/// The words of a text.
fn split_words(text: &Vec<char>) -> (words: Vec<Vec<char>>)
    ensures
        texts(words@) == words_of(text@),
{
    let ascii = transliterate(to_text(text).as_str());
    let cleaned = clear_problem_chars(&to_chars(ascii.as_str()));
    split_ascii_whitespace(&cleaned)
}

/// The punctuation that ends a word, and the word without it.
fn split_end_mark(word: &Vec<char>) -> (r: (Vec<char>, Option<Punctuation>))
    ensures
        r.0@ == stem(word@),
        r.1 == end_mark(word@),
{
    let n = word.len();
    if n > 0 && char_is_ascii_punctuation(word[n - 1]) {
        let mark = Punctuation::from_char(word[n - 1]);
        let front = slice(word, 0, n - 1);
        (front, mark)
    } else {
        (slice(word, 0, n), None)
    }
}

/// Normalises a text in which no number is to be spelled out.
fn normalise_plain(text: &Vec<char>) -> (out: NormalisedText)
    ensures
        out@ == finished(plain_draft(words_of(text@))),
{
    let words = split_words(text);
    let mut chunks: Vec<NormaliserChunk> = Vec::new();
    let mut buffer: Vec<char> = Vec::new();
    let mut i: usize = 0;
    assert(chunk_models(chunks@) == Seq::<ChunkModel>::empty());
    while i < words.len()
        invariant
            i <= words.len(),
            (Draft { chunks: chunk_models(chunks@), buffer: buffer@ }) == plain_draft(
                texts(words@).take(i as int),
            ),
        decreases words.len() - i,
    {
        proof {
            assert(texts(words@).take(i + 1).drop_last() == texts(words@).take(i as int));
        }
        let word = spell_ampersand(slice(&words[i], 0, words[i].len()));
        assert(word@ == ampersand_spelled(words@[i as int]@)) by {
            assert(words@[i as int]@.subrange(0, words@[i as int]@.len() as int) == words@[i as int]@);
        }
        let (front, mark) = split_end_mark(&word);
        let text = plain_word_of(&front);
        push_word(&mut chunks, &mut buffer, &text, mark);
        i += 1;
    }
    assert(texts(words@).take(words.len() as int) == texts(words@));
    finish(chunks, buffer)
}

/// Reads chunks as text.
fn render(chunks: &Vec<NormaliserChunk>) -> (r: Result<Vec<char>, NormaliseError>)
    ensures
        match r {
            Ok(t) => rendered(chunk_models(chunks@)) == Ok::<Seq<char>, NormaliseError>(t@),
            Err(e) => rendered(chunk_models(chunks@)) == Err::<Seq<char>, NormaliseError>(e),
        },
{
    let mut res: Vec<char> = Vec::new();
    let mut i: usize = 0;
    while i < chunks.len()
        invariant
            i <= chunks.len(),
            rendered(chunk_models(chunks@).take(i as int)) == Ok::<Seq<char>, NormaliseError>(
                res@,
            ),
        decreases chunks.len() - i,
    {
        proof {
            let m = chunk_models(chunks@);
            assert(m.take(i + 1).drop_last() == m.take(i as int));
        }
        match &chunks[i] {
            NormaliserChunk::Text(s) => {
                let n = res.len();
                if n > 0 && !char_is_whitespace(res[n - 1]) {
                    res.push(' ');
                }
                let tail = to_chars(s.as_str());
                append(&mut res, &tail);
            },
            NormaliserChunk::Punct(p) => {
                res.push(p.to_char());
            },
            NormaliserChunk::Pronunciation(_) => {
                proof {
                    lemma_rendered_fails(chunk_models(chunks@), i + 1);
                }
                return Err(NormaliseError::PronunciationInText);
            },
            NormaliserChunk::Break(_) => {},
        }
        i += 1;
    }
    assert(chunk_models(chunks@).take(chunks.len() as int) == chunk_models(chunks@));
    Ok(res)
}

/// A prefix that has no text leaves the whole without one, for the same
/// reason.
proof fn lemma_rendered_fails(chunks: Seq<ChunkModel>, n: int)
    requires
        0 <= n <= chunks.len(),
        rendered(chunks.take(n)) is Err,
    ensures
        rendered(chunks) == rendered(chunks.take(n)),
    decreases chunks.len() - n,
{
    if n < chunks.len() {
        assert(chunks.take(n + 1).drop_last() == chunks.take(n));
        lemma_rendered_fails(chunks, n + 1);
    } else {
        assert(chunks.take(n) == chunks);
    }
}

/// Spells a word that holds a digit.
fn process_number(word: &Vec<char>) -> (r: Result<Vec<char>, NormaliseError>)
    ensures
        match r {
            Ok(t) => number_text(word@) == Ok::<Seq<char>, NormaliseError>(t@),
            Err(e) => number_text(word@) == Err::<Seq<char>, NormaliseError>(e),
        },
{
    if contains_minus(word) {
        return Err(NormaliseError::InvalidNumber);
    }
    if short_ordinal(word) {
        return match spell_ordinal(to_text(word).as_str()) {
            Some(w) => Ok(spoken_words(w.as_str())),
            None => Err(NormaliseError::InvalidOrdinal),
        };
    }
    if bare_number(word) {
        return match spell_cardinal(to_text(word).as_str()) {
            Some(w) => Ok(spoken_words(w.as_str())),
            None => Err(NormaliseError::InvalidNumber),
        };
    }
    let a = run_end(word, 0, false);
    let b = run_end(word, a, true);
    let c = run_end(word, b, false);
    proof {
        assert(word@.skip(0) == word@);
    }
    let digits = slice(word, a, b);
    match spell_cardinal(to_text(&digits).as_str()) {
        None => Err(NormaliseError::InvalidNumber),
        Some(w) => {
            let head = beside(&slice(word, 0, a));
            let tail = beside(&slice(word, b, c));
            let number = spoken_words(w.as_str());
            let mut out: Vec<char> = Vec::new();
            if head.len() > 0 {
                append(&mut out, &head);
                out.push(' ');
            }
            append(&mut out, &number);
            if tail.len() > 0 {
                out.push(' ');
                append(&mut out, &tail);
            }
            Ok(out)
        },
    }
}

/// What stands beside the digits of a word, as it is spoken.
fn beside(part: &Vec<char>) -> (out: Vec<char>)
    ensures
        out@ == beside_number(part@),
{
    let text = normalise_plain(part);
    match render(&text.chunks) {
        Ok(t) => trimmed(&t),
        Err(_) => Vec::new(),
    }
}

/// Normalises text that is not marked up: splits it into words and
/// normalises each word by itself. Fails on the first number that has no
/// spelling.
pub fn normalise_text(x: &str) -> (r: Result<NormalisedText, NormaliseError>)
    ensures
        match r {
            Ok(t) => normalised(x@) == Ok::<Seq<ChunkModel>, NormaliseError>(t@),
            Err(e) => normalised(x@) == Err::<Seq<ChunkModel>, NormaliseError>(e),
        },
{
    let words = split_words(&to_chars(x));
    let mut chunks: Vec<NormaliserChunk> = Vec::new();
    let mut buffer: Vec<char> = Vec::new();
    let mut i: usize = 0;
    assert(chunk_models(chunks@) == Seq::<ChunkModel>::empty());
    while i < words.len()
        invariant
            i <= words.len(),
            texts(words@) == words_of(x@),
            draft(texts(words@).take(i as int)) == Ok::<Draft, NormaliseError>(
                Draft { chunks: chunk_models(chunks@), buffer: buffer@ },
            ),
        decreases words.len() - i,
    {
        proof {
            assert(texts(words@).take(i + 1).drop_last() == texts(words@).take(i as int));
        }
        let word = spell_ampersand(slice(&words[i], 0, words[i].len()));
        assert(word@ == ampersand_spelled(words@[i as int]@)) by {
            assert(words@[i as int]@.subrange(0, words@[i as int]@.len() as int) == words@[i as int]@);
        }
        let (front, mark) = split_end_mark(&word);
        let spoken = if contains_digit(&front) {
            process_number(&front)
        } else {
            Ok(plain_word_of(&front))
        };
        match spoken {
            Ok(text) => {
                push_word(&mut chunks, &mut buffer, &text, mark);
            },
            Err(e) => {
                proof {
                    lemma_draft_fails(texts(words@), i + 1);
                }
                return Err(e);
            },
        }
        i += 1;
    }
    assert(texts(words@).take(words.len() as int) == texts(words@));
    Ok(finish(chunks, buffer))
}

/// A number without a spelling among the first words fails the whole
/// text.
proof fn lemma_draft_fails(words: Seq<Seq<char>>, n: int)
    requires
        0 <= n <= words.len(),
        draft(words.take(n)) is Err,
    ensures
        draft(words) == draft(words.take(n)),
    decreases words.len() - n,
{
    if n < words.len() {
        assert(words.take(n + 1).drop_last() == words.take(n));
        lemma_draft_fails(words, n + 1);
    } else {
        assert(words.take(n) == words);
    }
}

/// Whether the chunks are texts and punctuation marks only.
pub open spec fn is_words_and_marks(chunks: Seq<ChunkModel>) -> bool {
    forall|i: int|
        0 <= i < chunks.len() ==> (#[trigger] chunks[i] is Text) || (chunks[i] is Punct)
}

/// A draft holds texts and punctuation marks only.
pub proof fn lemma_draft_is_words_and_marks(words: Seq<Seq<char>>)
    ensures
        draft(words) matches Ok(d) ==> is_words_and_marks(d.chunks) && is_words_and_marks(
            finished(d),
        ),
    decreases words.len(),
{
    if words.len() > 0 {
        lemma_draft_is_words_and_marks(words.drop_last());
    }
}

/// What normalisation of plain text gives can always be read as text.
pub proof fn lemma_normalised_is_textual(text: Seq<char>)
    ensures
        normalised(text) matches Ok(chunks) ==> is_words_and_marks(chunks) && is_textual(chunks)
            && rendered(chunks) is Ok,
{
    lemma_draft_is_words_and_marks(words_of(text));
    if normalised(text) is Ok {
        lemma_textual_renders(normalised(text)->Ok_0);
    }
}

/// Number of digits that stand directly before the end of `s`.
pub open spec fn trailing_digits(s: Seq<char>) -> nat
    decreases s.len(),
{
    if s.len() > 0 && is_ascii_digit(s.last()) {
        1 + trailing_digits(s.drop_last())
    } else {
        0
    }
}

/// A dictionary word without the number in brackets that tells its
/// readings apart, as in `BATH(2)`.
pub open spec fn without_version(s: Seq<char>) -> Seq<char> {
    if s.len() >= 3 && s.last() == ')' {
        let d = trailing_digits(s.drop_last()) as int;
        if d >= 1 && s.len() - 2 - d >= 0 && s[s.len() - 2 - d] == '(' {
            s.take(s.len() - 2 - d)
        } else {
            s
        }
    } else {
        s
    }
}

/// A dictionary word as it is looked up: without its version, normalised
/// and read as text.
pub open spec fn dictionary_form(word: Seq<char>) -> Result<Seq<char>, NormaliseError> {
    match normalised(without_version(word)) {
        Ok(chunks) => rendered(chunks),
        Err(e) => Err(e),
    }
}

proof fn lemma_trailing_digits_is(s: Seq<char>, n: int)
    requires
        0 <= n <= s.len(),
        forall|i: int| s.len() - n <= i < s.len() ==> is_ascii_digit(#[trigger] s[i]),
        n < s.len() ==> !is_ascii_digit(s[s.len() - n - 1]),
    ensures
        trailing_digits(s) == n,
    decreases s.len(),
{
    if n > 0 {
        let t = s.drop_last();
        assert forall|i: int| t.len() - (n - 1) <= i < t.len() implies is_ascii_digit(
            #[trigger] t[i],
        ) by {
            assert(t[i] == s[i]);
        }
        lemma_trailing_digits_is(t, n - 1);
    }
}

fn strip_version(s: &Vec<char>) -> (out: Vec<char>)
    ensures
        out@ == without_version(s@),
{
    let n = s.len();
    if n >= 3 && s[n - 1] == ')' {
        let mut k: usize = n - 1;
        while k > 0 && char_is_ascii_digit(s[k - 1])
            invariant
                k <= n - 1,
                n == s.len(),
                forall|j: int| k <= j < n - 1 ==> is_ascii_digit(#[trigger] s@[j]),
            decreases k,
        {
            k -= 1;
        }
        proof {
            let t = s@.drop_last();
            lemma_trailing_digits_is(t, n - 1 - k);
        }
        let d = n - 1 - k;
        if d >= 1 && k >= 1 && s[k - 1] == '(' {
            let out = slice(s, 0, k - 1);
            out
        } else {
            slice(s, 0, n)
        }
    } else {
        slice(s, 0, n)
    }
}

/// Normalises an entry word of a pronunciation dictionary. Such words
/// come with a number in brackets where a word has several readings;
/// the number is removed, and the rest is normalised as any text is.
pub fn dict_normalise(x: &str) -> (r: Result<String, NormaliseError>)
    ensures
        match r {
            Ok(t) => dictionary_form(x@) == Ok::<Seq<char>, NormaliseError>(t@),
            Err(e) => dictionary_form(x@) == Err::<Seq<char>, NormaliseError>(e),
        },
{
    let word = strip_version(&to_chars(x));
    match normalise_text(to_text(&word).as_str()) {
        Ok(text) => match render(&text.chunks) {
            Ok(t) => Ok(to_text(&t)),
            Err(e) => Err(e),
        },
        Err(e) => Err(e),
    }
}

/// The unit that a character of normalised text stands for.
pub open spec fn char_unit(c: char) -> Unit {
    if is_whitespace(c) {
        Unit::Space
    } else {
        match punctuation_mark(c) {
            Some(p) => Unit::Punct(p),
            None => Unit::Character(c),
        }
    }
}

/// The units of a text that is fed to a model character by character:
/// small letters, spaces and punctuation marks.
pub open spec fn text_units(s: Seq<char>) -> Seq<Unit> {
    s.map_values(|c: char| char_unit(crate::text::ascii_lower(c)))
}

/// A chunk with its text, if it holds any, turned into units.
pub open spec fn as_units(chunk: ChunkModel) -> ChunkModel {
    match chunk {
        ChunkModel::Text(s) => ChunkModel::Pronunciation(text_units(s)),
        ChunkModel::Punct(p) => ChunkModel::Pronunciation(seq![Unit::Punct(p)]),
        other => other,
    }
}

/// A copy of a list of units.
pub fn copy_units(units: &Vec<Unit>) -> (out: Vec<Unit>)
    ensures
        out@ == units@,
{
    let mut out: Vec<Unit> = Vec::new();
    let mut i: usize = 0;
    while i < units.len()
        invariant
            i <= units.len(),
            out@ == units@.take(i as int),
        decreases units.len() - i,
    {
        out.push(units[i]);
        i += 1;
    }
    out
}

fn units_of_text(s: &str) -> (out: Vec<Unit>)
    ensures
        out@ == text_units(s@),
{
    let chars = to_chars(s);
    let mut out: Vec<Unit> = Vec::new();
    let mut i: usize = 0;
    while i < chars.len()
        invariant
            i <= chars.len(),
            chars@ == s@,
            out@ == text_units(s@.take(i as int)),
        decreases chars.len() - i,
    {
        let c = crate::text::char_to_ascii_lower(chars[i]);
        let unit = if char_is_whitespace(c) {
            Unit::Space
        } else {
            match Punctuation::from_char(c) {
                Some(p) => Unit::Punct(p),
                None => Unit::Character(c),
            }
        };
        out.push(unit);
        i += 1;
    }
    out
}

fn chunk_as_units(chunk: &NormaliserChunk) -> (out: NormaliserChunk)
    ensures
        out@ == as_units(chunk@),
{
    match chunk {
        NormaliserChunk::Text(s) => NormaliserChunk::Pronunciation(units_of_text(s.as_str())),
        NormaliserChunk::Punct(p) => {
            let units = vec![Unit::Punct(*p)];
            assert(units@ == seq![Unit::Punct(*p)]);
            NormaliserChunk::Pronunciation(units)
        },
        NormaliserChunk::Break(d) => NormaliserChunk::Break(*d),
        NormaliserChunk::Pronunciation(u) => NormaliserChunk::Pronunciation(copy_units(u)),
    }
}

impl NormalisedText {
    /// A text made of the given chunks.
    pub fn from_chunks(chunks: Vec<NormaliserChunk>) -> (t: NormalisedText)
        ensures
            t@ == chunk_models(chunks@),
    {
        NormalisedText { chunks }
    }

    /// The chunks in the order in which they are spoken.
    pub fn chunks(&self) -> (c: &Vec<NormaliserChunk>)
        ensures
            chunk_models(c@) == self@,
    {
        &self.chunks
    }

    /// Turns every text and every punctuation mark into units, character
    /// by character. Words are not given a pronunciation by this; for
    /// that see `words_to_pronunciation`.
    pub fn convert_to_units(&mut self)
        ensures
            final(self)@ == old(self)@.map_values(|c: ChunkModel| as_units(c)),
    {
        let mut out: Vec<NormaliserChunk> = Vec::new();
        let mut i: usize = 0;
        while i < self.chunks.len()
            invariant
                i <= self.chunks.len(),
                self.chunks@ == old(self).chunks@,
                chunk_models(out@) == chunk_models(self.chunks@).take(i as int).map_values(
                    |c: ChunkModel| as_units(c),
                ),
            decreases self.chunks.len() - i,
        {
            let ghost before = out@;
            let chunk = chunk_as_units(&self.chunks[i]);
            out.push(chunk);
            i += 1;
            assert(chunk_models(out@) == chunk_models(before).push(chunk@));
        }
        self.chunks = out;
    }

    /// Takes all the chunks out and leaves the text empty.
    pub fn drain_all(&mut self) -> (taken: Vec<NormaliserChunk>)
        ensures
            chunk_models(taken@) == old(self)@,
            final(self)@ == Seq::<ChunkModel>::empty(),
    {
        let mut taken: Vec<NormaliserChunk> = Vec::new();
        std::mem::swap(&mut taken, &mut self.chunks);
        taken
    }

    /// Reads the chunks as text. Breaks are passed over; a chunk of
    /// units has no text and fails the call.
    pub fn to_string(&self) -> (r: Result<String, NormaliseError>)
        ensures
            match r {
                Ok(t) => rendered(self@) == Ok::<Seq<char>, NormaliseError>(t@),
                Err(e) => rendered(self@) == Err::<Seq<char>, NormaliseError>(e),
            },
            r is Err <==> !is_textual(self@),
    {
        proof {
            lemma_renders_iff_textual(self@);
        }
        match render(&self.chunks) {
            Ok(t) => Ok(to_text(&t)),
            Err(e) => Err(e),
        }
    }

    /// Reads the chunks as text, for a text that is known to hold no
    /// chunk of units.
    pub fn to_string_unchecked(&self) -> (t: String)
        requires
            is_textual(self@),
        ensures
            rendered(self@) == Ok::<Seq<char>, NormaliseError>(t@),
    {
        proof {
            lemma_textual_renders(self@);
        }
        match render(&self.chunks) {
            Ok(t) => to_text(&t),
            Err(_) => String::new(),
        }
    }

    /// Appends the chunks of another text to this one.
    pub fn append(&mut self, other: NormalisedText)
        ensures
            final(self)@ == old(self)@ + other@,
    {
        let mut other = other;
        self.chunks.append(&mut other.chunks);
    }

    /// Adds one chunk at the end.
    pub fn push(&mut self, chunk: NormaliserChunk)
        ensures
            final(self)@ == old(self)@.push(chunk@),
    {
        self.chunks.push(chunk);
    }
}

/// Chunks read as text exactly when none of them holds units.
pub proof fn lemma_renders_iff_textual(chunks: Seq<ChunkModel>)
    ensures
        rendered(chunks) is Ok <==> is_textual(chunks),
    decreases chunks.len(),
{
    if chunks.len() > 0 {
        let front = chunks.drop_last();
        lemma_renders_iff_textual(front);
        if is_textual(chunks) {
            assert forall|i: int| 0 <= i < front.len() implies !(
            #[trigger] front[i] is Pronunciation) by {
                assert(front[i] == chunks[i]);
            }
            assert(!(chunks[chunks.len() - 1] is Pronunciation));
        }
        if rendered(chunks) is Ok {
            assert forall|i: int| 0 <= i < chunks.len() implies !(
            #[trigger] chunks[i] is Pronunciation) by {
                if i < front.len() {
                    assert(front[i] == chunks[i]);
                }
            }
        }
    }
}

/// The number that a run of digits writes.
pub open spec fn digits_value(s: Seq<char>) -> int
    decreases s.len(),
{
    if s.len() == 0 {
        0
    } else {
        digits_value(s.drop_last()) * 10 + (s.last() as int - '0' as int)
    }
}

/// Whether a text holds digits only.
pub open spec fn all_digits(s: Seq<char>) -> bool {
    forall|i: int| 0 <= i < s.len() ==> is_ascii_digit(#[trigger] s[i])
}

/// The integer that a text writes: an optional sign, then digits. A
/// number that does not fit 64 bits is none.
pub open spec fn integer(s: Seq<char>) -> Option<i64> {
    if s.len() == 0 {
        None
    } else {
        let body = if s[0] == '-' || s[0] == '+' {
            s.skip(1)
        } else {
            s
        };
        let value = if s[0] == '-' {
            -digits_value(body)
        } else {
            digits_value(body)
        };
        if body.len() > 0 && all_digits(body) && i64::MIN <= value <= i64::MAX {
            Some(value as i64)
        } else {
            None
        }
    }
}

proof fn lemma_digits_value_grows(s: Seq<char>, n: int)
    requires
        all_digits(s),
        0 <= n <= s.len(),
    ensures
        0 <= digits_value(s.take(n)) <= digits_value(s),
    decreases s.len() - n,
{
    if n < s.len() {
        lemma_digits_value_grows(s, n + 1);
        assert(s.take(n + 1).drop_last() == s.take(n));
        assert(is_ascii_digit(s[n]));
        lemma_digits_value_nonnegative(s.take(n));
    } else {
        assert(s.take(n) == s);
        lemma_digits_value_nonnegative(s);
    }
}

proof fn lemma_digits_value_nonnegative(s: Seq<char>)
    requires
        all_digits(s),
    ensures
        0 <= digits_value(s),
    decreases s.len(),
{
    if s.len() > 0 {
        assert(is_ascii_digit(s[s.len() - 1]));
        assert forall|i: int| 0 <= i < s.len() - 1 implies is_ascii_digit(
            #[trigger] s.drop_last()[i],
        ) by {
            assert(s.drop_last()[i] == s[i]);
        }
        lemma_digits_value_nonnegative(s.drop_last());
    }
}

/// Reads an integer.
pub fn parse_integer(s: &Vec<char>) -> (r: Option<i64>)
    ensures
        r == integer(s@),
{
    if s.len() == 0 {
        return None;
    }
    let negative = s[0] == '-';
    let start: usize = if s[0] == '-' || s[0] == '+' {
        1
    } else {
        0
    };
    let ghost body = s@.skip(start as int);
    if start == s.len() {
        return None;
    }
    let limit: u64 = 9223372036854775808;
    let mut acc: u64 = 0;
    let mut i: usize = start;
    while i < s.len()
        invariant
            start <= i <= s.len(),
            s.len() > 0,
            negative == (s@[0] == '-'),
            start == if s@[0] == '-' || s@[0] == '+' {
                1int
            } else {
                0int
            },
            body == s@.skip(start as int),
            s@.skip(0) == s@,
            limit == 9223372036854775808,
            acc == digits_value(body.take(i - start)),
            acc <= limit,
            forall|j: int| 0 <= j < i - start ==> is_ascii_digit(#[trigger] body[j]),
        decreases s.len() - i,
    {
        let c = s[i];
        assert(body[i - start] == c);
        if !char_is_ascii_digit(c) {
            return None;
        }
        let d: u64 = (c as u64) - ('0' as u64);
        proof {
            assert(body.take(i - start + 1).drop_last() == body.take(i - start));
        }
        if acc > (limit - d) / 10 {
            proof {
                if all_digits(body) {
                    lemma_digits_value_grows(body, i - start + 1);
                }
            }
            return None;
        }
        acc = acc * 10 + d;
        i += 1;
    }
    assert(body.take(body.len() as int) == body);
    if negative {
        if acc == limit {
            Some(-9223372036854775808i64)
        } else {
            Some(-(acc as i64))
        }
    } else if acc == limit {
        None
    } else {
        Some(acc as i64)
    }
}

/// The parts with a space between each two.
pub open spec fn spaced(parts: Seq<Seq<char>>) -> Seq<char>
    decreases parts.len(),
{
    if parts.len() == 0 {
        Seq::empty()
    } else if parts.len() == 1 {
        parts[0]
    } else {
        spaced(parts.drop_last()).push(' ') + parts.last()
    }
}

/// The texts among the chunks that are not empty.
pub open spec fn spoken_texts(chunks: Seq<ChunkModel>) -> Seq<ChunkModel>
    decreases chunks.len(),
{
    if chunks.len() == 0 {
        Seq::empty()
    } else {
        let before = spoken_texts(chunks.drop_last());
        match chunks.last() {
            ChunkModel::Text(t) => if t.len() > 0 {
                before.push(chunks.last())
            } else {
                before
            },
            _ => before,
        }
    }
}

/// The chunk that a text gives when it is to be read letter by letter.
pub open spec fn spelled_out(text: Seq<char>) -> Result<ChunkModel, NormaliseError> {
    match normalised(spaced(grapheme_clusters(text))) {
        Err(e) => Err(e),
        Ok(chunks) => {
            let kept = spoken_texts(chunks);
            if kept.len() == 1 {
                Ok(kept[0])
            } else {
                match rendered(kept) {
                    Ok(t) => Ok(ChunkModel::Text(t)),
                    Err(e) => Err(e),
                }
            }
        },
    }
}

/// The chunk that the content of a `say-as` element gives, read as the
/// element asks: as an ordinal, as a cardinal, or character by
/// character.
pub open spec fn said_as(interpret_as: Seq<char>, text: Seq<char>) -> Result<
    ChunkModel,
    NormaliseError,
> {
    if interpret_as == "ordinal"@ {
        match integer(trim(text)) {
            None => Err(NormaliseError::InvalidInteger),
            Some(n) => match ordinal_of(n) {
                Some(w) => Ok(ChunkModel::Text(spoken(w))),
                None => Err(NormaliseError::InvalidOrdinal),
            },
        }
    } else if interpret_as == "cardinal"@ {
        match integer(trim(text)) {
            None => Err(NormaliseError::InvalidInteger),
            Some(n) => match cardinal_of(n) {
                Some(w) => Ok(ChunkModel::Text(spoken(w))),
                None => Err(NormaliseError::InvalidNumber),
            },
        }
    } else if interpret_as == "characters"@ {
        spelled_out(text)
    } else {
        Err(NormaliseError::UnsupportedSayAs)
    }
}

fn join_spaced(parts: &Vec<String>) -> (out: Vec<char>)
    ensures
        out@ == spaced(parts@.map_values(|g: String| g@)),
{
    let ghost all = parts@.map_values(|g: String| g@);
    let mut out: Vec<char> = Vec::new();
    let mut i: usize = 0;
    while i < parts.len()
        invariant
            i <= parts.len(),
            all == parts@.map_values(|g: String| g@),
            out@ == spaced(all.take(i as int)),
        decreases parts.len() - i,
    {
        proof {
            assert(all.take(i + 1).drop_last() == all.take(i as int));
        }
        if i > 0 {
            out.push(' ');
        }
        let part = to_chars(parts[i].as_str());
        append(&mut out, &part);
        i += 1;
    }
    assert(all.take(parts.len() as int) == all);
    out
}

fn keep_spoken_texts(chunks: &Vec<NormaliserChunk>) -> (out: Vec<NormaliserChunk>)
    ensures
        chunk_models(out@) == spoken_texts(chunk_models(chunks@)),
{
    let ghost all = chunk_models(chunks@);
    let mut out: Vec<NormaliserChunk> = Vec::new();
    let mut i: usize = 0;
    while i < chunks.len()
        invariant
            i <= chunks.len(),
            all == chunk_models(chunks@),
            chunk_models(out@) == spoken_texts(all.take(i as int)),
        decreases chunks.len() - i,
    {
        proof {
            assert(all.take(i + 1).drop_last() == all.take(i as int));
        }
        match &chunks[i] {
            NormaliserChunk::Text(t) => {
                let chars = to_chars(t.as_str());
                if chars.len() > 0 {
                    let copy = NormaliserChunk::Text(to_text(&chars));
                    out.push(copy);
                }
            },
            _ => {},
        }
        i += 1;
    }
    assert(all.take(chunks.len() as int) == all);
    out
}

/// Handles the content of a `say-as` element: a hint on how a stretch of
/// text is to be read. Three readings are supported: `ordinal`,
/// `cardinal` and `characters`.
pub fn handle_say_as(interpret_as: &str, text: &str) -> (r: Result<NormaliserChunk, NormaliseError>)
    ensures
        match r {
            Ok(chunk) => said_as(interpret_as@, text@) == Ok::<ChunkModel, NormaliseError>(chunk@),
            Err(e) => said_as(interpret_as@, text@) == Err::<ChunkModel, NormaliseError>(e),
        },
{
    let wanted = to_chars(interpret_as);
    if same_text(&wanted, &to_chars("ordinal")) {
        match parse_integer(&trimmed(&to_chars(text))) {
            None => Err(NormaliseError::InvalidInteger),
            Some(n) => match spell_ordinal_of(n) {
                Some(w) => Ok(NormaliserChunk::Text(to_text(&spoken_words(w.as_str())))),
                None => Err(NormaliseError::InvalidOrdinal),
            },
        }
    } else if same_text(&wanted, &to_chars("cardinal")) {
        match parse_integer(&trimmed(&to_chars(text))) {
            None => Err(NormaliseError::InvalidInteger),
            Some(n) => match spell_cardinal_of(n) {
                Some(w) => Ok(NormaliserChunk::Text(to_text(&spoken_words(w.as_str())))),
                None => Err(NormaliseError::InvalidNumber),
            },
        }
    } else if same_text(&wanted, &to_chars("characters")) {
        let letters = join_spaced(&graphemes(text));
        match normalise_text(to_text(&letters).as_str()) {
            Err(e) => Err(e),
            Ok(normal) => {
                let mut kept = keep_spoken_texts(&normal.chunks);
                if kept.len() == 1 {
                    let chunk = kept.remove(0);
                    Ok(chunk)
                } else {
                    match render(&kept) {
                        Ok(t) => Ok(NormaliserChunk::Text(to_text(&t))),
                        Err(e) => Err(e),
                    }
                }
            },
        }
    } else {
        Err(NormaliseError::UnsupportedSayAs)
    }
}

/// How strong a break is.
#[derive(Clone, Copy, Debug, PartialEq, Eq, Structural)]
pub enum Strength {
    /// No break at all.
    No,
    ExtraWeak,
    Weak,
    Medium,
    Strong,
    ExtraStrong,
}

/// The length of a break in milliseconds. A time that is given decides;
/// else the strength does, and a break without either is a medium one.
/// A break of no strength is no break.
pub open spec fn break_length(time: Option<u64>, strength: Option<Strength>) -> Option<u64> {
    match (time, strength) {
        (Some(t), _) => Some(t),
        (None, Some(Strength::No)) => None,
        (None, Some(Strength::ExtraWeak)) => Some(200u64),
        (None, Some(Strength::Weak)) => Some(500u64),
        (None, Some(Strength::Medium)) => Some(1000u64),
        (None, Some(Strength::Strong)) => Some(2000u64),
        (None, Some(Strength::ExtraStrong)) => Some(5000u64),
        (None, None) => Some(1000u64),
    }
}

/// The length of a break in milliseconds.
pub fn break_duration(time: Option<u64>, strength: Option<Strength>) -> (r: Option<u64>)
    ensures
        r == break_length(time, strength),
{
    match (time, strength) {
        (Some(t), _) => Some(t),
        (None, Some(Strength::No)) => None,
        (None, Some(Strength::ExtraWeak)) => Some(200),
        (None, Some(Strength::Weak)) => Some(500),
        (None, Some(Strength::Medium)) => Some(1000),
        (None, Some(Strength::Strong)) => Some(2000),
        (None, Some(Strength::ExtraStrong)) => Some(5000),
        (None, None) => Some(1000),
    }
}

/// An element of a marked-up text, as a value of specifications.
pub enum ElementModel {
    Speak,
    SayAs(Seq<char>),
    Phoneme(Seq<char>, bool),
    Break(Option<u64>, Option<Strength>),
    Other,
}

/// An element of a marked-up text, with what is read of its attributes.
#[derive(Clone, Debug, PartialEq, Eq)]
pub enum SsmlElement {
    /// The root element.
    Speak,
    /// A hint on how the content is to be read.
    SayAs { interpret_as: String },
    /// A pronunciation for the content. `ipa` says that it is written in
    /// the international phonetic alphabet, which is the default.
    Phoneme { ph: String, ipa: bool },
    /// A pause, with its length in milliseconds if one is given.
    Break { time: Option<u64>, strength: Option<Strength> },
    /// Any other element.
    Other,
}

impl View for SsmlElement {
    type V = ElementModel;

    open spec fn view(&self) -> ElementModel {
        match self {
            SsmlElement::Speak => ElementModel::Speak,
            SsmlElement::SayAs { interpret_as } => ElementModel::SayAs(interpret_as@),
            SsmlElement::Phoneme { ph, ipa } => ElementModel::Phoneme(ph@, *ipa),
            SsmlElement::Break { time, strength } => ElementModel::Break(*time, *strength),
            SsmlElement::Other => ElementModel::Other,
        }
    }
}

/// What a parser reports of a marked-up text, as a value of
/// specifications.
pub enum EventModel {
    Text(Seq<char>),
    Open(ElementModel),
    Close,
    Empty(ElementModel),
}

/// What a parser reports of a marked-up text, piece by piece.
#[derive(Clone, Debug, PartialEq, Eq)]
pub enum SsmlEvent {
    /// Text between tags.
    Text(String),
    /// An opening tag.
    Open(SsmlElement),
    /// A closing tag.
    Close,
    /// An element without content.
    Empty(SsmlElement),
}

impl View for SsmlEvent {
    type V = EventModel;

    open spec fn view(&self) -> EventModel {
        match self {
            SsmlEvent::Text(t) => EventModel::Text(t@),
            SsmlEvent::Open(e) => EventModel::Open(e@),
            SsmlEvent::Close => EventModel::Close,
            SsmlEvent::Empty(e) => EventModel::Empty(e@),
        }
    }
}

/// The events of a list, as values of specifications.
pub open spec fn event_models(events: Seq<SsmlEvent>) -> Seq<EventModel> {
    events.map_values(|e: SsmlEvent| e@)
}

/// Where a marked-up text stands while its events are read.
pub struct SsmlScan {
    /// The chunks so far.
    pub chunks: Seq<ChunkModel>,
    /// The elements that are open, innermost last.
    pub open: Seq<ElementModel>,
    /// Whether text is to be normalised as it stands.
    pub plain: bool,
}

/// The scan after a stretch of text.
///
/// Outside of elements that speak for their content the text is
/// normalised. Inside a `say-as` element it is read as the element
/// asks. Inside a `phoneme` element the text is passed over, since the
/// element gives the sounds, and so it is inside any element nested in
/// one of those two.
pub open spec fn after_text(scan: SsmlScan, text: Seq<char>) -> Result<SsmlScan, NormaliseError> {
    if scan.plain {
        match normalised(text) {
            Ok(chunks) => Ok(SsmlScan { chunks: scan.chunks + chunks, ..scan }),
            Err(e) => Err(e),
        }
    } else if scan.open.len() > 0 && scan.open.last() is SayAs {
        match said_as(scan.open.last()->SayAs_0, text) {
            Ok(chunk) => Ok(SsmlScan { chunks: scan.chunks.push(chunk), ..scan }),
            Err(e) => Err(e),
        }
    } else {
        Ok(scan)
    }
}

/// The scan after an opening tag.
pub open spec fn after_open(scan: SsmlScan, element: ElementModel) -> SsmlScan {
    let open = scan.open.push(element);
    match element {
        ElementModel::SayAs(_) => SsmlScan { open, plain: false, ..scan },
        ElementModel::Phoneme(ph, ipa) => SsmlScan {
            chunks: if ipa {
                scan.chunks.push(ChunkModel::Pronunciation(ipa_units(grapheme_clusters(ph))))
            } else {
                scan.chunks
            },
            open,
            plain: false,
        },
        _ => SsmlScan { open, ..scan },
    }
}

/// The scan after an element without content: a break adds a pause of
/// its length, anything else adds nothing.
pub open spec fn after_empty(scan: SsmlScan, element: ElementModel) -> SsmlScan {
    match element {
        ElementModel::Break(time, strength) => match break_length(time, strength) {
            Some(d) => SsmlScan { chunks: scan.chunks.push(ChunkModel::Break(d)), ..scan },
            None => scan,
        },
        _ => scan,
    }
}

/// The scan after one more event. A closing tag ends the innermost
/// element, after which text is normalised again; one that closes
/// nothing fails the scan.
pub open spec fn after_event(scan: SsmlScan, event: EventModel) -> Result<
    SsmlScan,
    NormaliseError,
> {
    match event {
        EventModel::Text(t) => after_text(scan, t),
        EventModel::Open(e) => Ok(after_open(scan, e)),
        EventModel::Close => if scan.open.len() > 0 {
            Ok(SsmlScan { open: scan.open.drop_last(), plain: true, ..scan })
        } else {
            Err(NormaliseError::UnbalancedTags)
        },
        EventModel::Empty(e) => Ok(after_empty(scan, e)),
    }
}

/// The scan after all the events. It fails with the first event that
/// fails.
pub open spec fn ssml_scan(events: Seq<EventModel>) -> Result<SsmlScan, NormaliseError>
    decreases events.len(),
{
    if events.len() == 0 {
        Ok(SsmlScan { chunks: Seq::empty(), open: Seq::empty(), plain: true })
    } else {
        match ssml_scan(events.drop_last()) {
            Ok(scan) => after_event(scan, events.last()),
            Err(e) => Err(e),
        }
    }
}

proof fn lemma_ssml_scan_fails(events: Seq<EventModel>, n: int)
    requires
        0 <= n <= events.len(),
        ssml_scan(events.take(n)) is Err,
    ensures
        ssml_scan(events) == ssml_scan(events.take(n)),
    decreases events.len() - n,
{
    if n < events.len() {
        assert(events.take(n + 1).drop_last() == events.take(n));
        lemma_ssml_scan_fails(events, n + 1);
    } else {
        assert(events.take(n) == events);
    }
}

/// What kind of element is open, and what a `say-as` element asks for.
enum OpenElement {
    SayAs(String),
    Other,
}

/// Normalises a marked-up text, given the events that a parser reports
/// of it.
pub fn normalise_ssml_events(events: &Vec<SsmlEvent>) -> (r: Result<NormalisedText, NormaliseError>)
    ensures
        match r {
            Ok(t) => ssml_scan(event_models(events@)) matches Ok(scan) && scan.chunks == t@,
            Err(e) => ssml_scan(event_models(events@)) == Err::<SsmlScan, NormaliseError>(e),
        },
{
    let ghost all = event_models(events@);
    let mut res = NormalisedText::from_chunks(Vec::new());
    let mut stack: Vec<OpenElement> = Vec::new();
    let ghost mut open: Seq<ElementModel> = Seq::empty();
    let mut plain = true;
    let mut i: usize = 0;
    assert(res@ == Seq::<ChunkModel>::empty());
    while i < events.len()
        invariant
            i <= events.len(),
            all == event_models(events@),
            ssml_scan(all.take(i as int)) == Ok::<SsmlScan, NormaliseError>(
                SsmlScan { chunks: res@, open, plain },
            ),
            stack@.len() == open.len(),
            forall|k: int|
                0 <= k < open.len() ==> match #[trigger] stack@[k] {
                    OpenElement::SayAs(s) => open[k] == ElementModel::SayAs(s@),
                    OpenElement::Other => !(open[k] is SayAs),
                },
        decreases events.len() - i,
    {
        proof {
            assert(all.take(i + 1).drop_last() == all.take(i as int));
        }
        match &events[i] {
            SsmlEvent::Text(t) => {
                if plain {
                    match normalise_text(t.as_str()) {
                        Ok(chunks) => {
                            res.append(chunks);
                        },
                        Err(e) => {
                            proof {
                                lemma_ssml_scan_fails(all, i + 1);
                            }
                            return Err(e);
                        },
                    }
                } else if stack.len() > 0 {
                    match &stack[stack.len() - 1] {
                        OpenElement::SayAs(interpret_as) => {
                            match handle_say_as(interpret_as.as_str(), t.as_str()) {
                                Ok(chunk) => {
                                    res.push(chunk);
                                },
                                Err(e) => {
                                    proof {
                                        lemma_ssml_scan_fails(all, i + 1);
                                    }
                                    return Err(e);
                                },
                            }
                        },
                        OpenElement::Other => {
                        },
                    }
                }
            },
            SsmlEvent::Open(element) => {
                match element {
                    SsmlElement::SayAs { interpret_as } => {
                        plain = false;
                        stack.push(OpenElement::SayAs(interpret_as.clone()));
                    },
                    SsmlElement::Phoneme { ph, ipa } => {
                        plain = false;
                        if *ipa {
                            res.push(
                                NormaliserChunk::Pronunciation(ipa_string_to_units(ph.as_str())),
                            );
                        }
                        stack.push(OpenElement::Other);
                    },
                    _ => {
                        stack.push(OpenElement::Other);
                    },
                }
                proof {
                    open = open.push(element@);
                }
            },
            SsmlEvent::Close => {
                if stack.len() == 0 {
                    proof {
                        lemma_ssml_scan_fails(all, i + 1);
                    }
                    return Err(NormaliseError::UnbalancedTags);
                }
                stack.pop();
                plain = true;
                proof {
                    open = open.drop_last();
                }
            },
            SsmlEvent::Empty(element) => {
                match element {
                    SsmlElement::Break { time, strength } => {
                        match break_duration(*time, *strength) {
                            Some(d) => {
                                res.push(NormaliserChunk::Break(d));
                            },
                            None => {},
                        }
                    },
                    _ => {},
                }
            },
        }
        i += 1;
    }
    assert(all.take(events.len() as int) == all);
    Ok(res)
}

/// Whether a text is marked up: it holds the start of a `speak` tag.
pub open spec fn is_marked_up(text: Seq<char>) -> bool {
    exists|i: int| 0 <= i <= text.len() - 6 && #[trigger] text.subrange(i, i + 6) == "<speak"@
}

/// Tells marked-up text from plain text.
pub fn is_ssml(x: &str) -> (r: bool)
    ensures
        r == is_marked_up(x@),
{
    let chars = to_chars(x);
    let tag = to_chars("<speak");
    proof {
        reveal_strlit("<speak");
    }
    if chars.len() < 6 {
        return false;
    }
    let mut i: usize = 0;
    while i <= chars.len() - 6
        invariant
            chars.len() >= 6,
            i <= chars.len() - 5,
            chars@ == x@,
            tag@ == "<speak"@,
            tag@.len() == 6,
            forall|j: int| 0 <= j < i ==> #[trigger] x@.subrange(j, j + 6) != "<speak"@,
        decreases chars.len() - i,
    {
        let window = slice(&chars, i, i + 6);
        if same_text(&window, &tag) {
            return true;
        }
        i += 1;
    }
    false
}

} // verus!
