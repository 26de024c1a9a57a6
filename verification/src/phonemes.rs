//! Speech units: what a synthesis model takes as input.
//!
//! A unit is a phone with an optional stress mark, a character, a
//! punctuation mark, a space, or one of the two placeholders for padding
//! and for unknown symbols. Every type here has a textual form, given by a
//! spec function, a `to_string` that produces it and a `from_str` that
//! reads it back.
use crate::text::{
    append, grapheme_clusters, graphemes, is_blank, is_blank_text, is_whitespace,
    lemma_leading_whitespace_is, lemma_trailing_whitespace_is, same_text, slice, to_chars,
    to_text, trim, trimmed,
};
use vstd::prelude::*;

verus! {

/// The sounds of one word, in order.
pub type Pronunciation = Vec<PhoneticUnit>;

/// One atomic input element of a spectrogram model.
#[derive(Clone, Copy, Debug, PartialEq, Eq, Structural, PartialOrd, Ord, Hash)]
pub enum Unit {
    /// An ARPABET phone, possibly stressed.
    Phone(PhoneticUnit),
    /// Placeholder for a symbol the model does not know.
    Unk,
    /// The gap between two words.
    Space,
    /// A punctuation mark.
    Punct(Punctuation),
    /// A literal character, for models that are fed graphemes.
    Character(char),
    /// Placeholder that fills an input window.
    Padding,
}

/// The punctuation marks that can steer synthesis.
#[derive(Clone, Copy, Debug, PartialEq, Eq, Structural, PartialOrd, Ord, Hash)]
pub enum Punctuation {
    /// A full stop `.`
    FullStop,
    /// A comma `,`
    Comma,
    /// A question mark `?`
    QuestionMark,
    /// An exclamation mark `!`
    ExclamationMark,
    /// A dash `-`
    Dash,
    /// An opening bracket `(`
    OpenBracket,
    /// A closing bracket `)`
    CloseBracket,
    /// A colon `:`
    Colon,
    /// A semicolon `;`
    SemiColon,
    /// An apostrophe `'`
    Apostrophe,
}

/// A phone together with what modifies its sound, most often a stress.
#[derive(Clone, Copy, Debug, PartialEq, Eq, Structural, PartialOrd, Ord, Hash)]
pub struct PhoneticUnit {
    /// The sound made.
    pub phone: ArpaPhone,
    /// Stress or another auxiliary mark, if any.
    pub context: Option<AuxiliarySymbol>,
}

/// The phones of two-letter ARPABET, each with a word in which it occurs.
#[derive(Clone, Copy, Debug, PartialEq, Eq, Structural, PartialOrd, Ord, Hash)]
pub enum ArpaPhone {
    /// The "al" in "balm".
    Aa,
    /// The "a" in "bat".
    Ae,
    /// The "u" in "butt".
    Ah,
    /// The "o" in "story".
    Ao,
    /// The "ou" in "bout".
    Aw,
    /// The "i" in "bite".
    Ay,
    /// The "b" in "buy".
    B,
    /// The "ch" in "China".
    Ch,
    /// The "d" in "die".
    D,
    /// The "th" in "father".
    Dh,
    /// The "e" in "bet".
    Eh,
    /// The "ir" in "bird".
    Er,
    /// The "ai" in "bait".
    Ey,
    /// The "f" in "fight".
    F,
    /// The "g" in "guy".
    G,
    /// The "h" in "high".
    Hh,
    /// The "i" in "bit".
    Ih,
    /// The "ea" in "beat".
    Iy,
    /// The "j" in "jive".
    Jh,
    /// The "k" in "kite".
    K,
    /// The "l" in "lie".
    L,
    /// The "m" in "my".
    M,
    /// The "n" in "nigh".
    N,
    /// The "ng" in "sing".
    Ng,
    /// The "oa" in "boat".
    Ow,
    /// The "oy" in "boy".
    Oy,
    /// The "p" in "pie".
    P,
    /// The "r" in "rye".
    R,
    /// The "s" in "sigh".
    S,
    /// The "sh" in "shy".
    Sh,
    /// The "t" in "tie".
    T,
    /// The "th" in "thigh".
    Th,
    /// The "oo" in "book".
    Uh,
    /// The "oo" in "boot".
    Uw,
    /// The "v" in "vie".
    V,
    /// The "w" in "wise".
    W,
    /// The "y" in "yacht".
    Y,
    /// The "z" in "zoo".
    Z,
    /// The "s" in "pleasure".
    Zh,
}

/// The auxiliary symbols that may follow an ARPABET phone.
#[derive(Clone, Copy, Debug, PartialEq, Eq, Structural, PartialOrd, Ord, Hash)]
pub enum AuxiliarySymbol {
    /// The phone is unstressed.
    NoStress,
    /// The strongest stress.
    PrimaryStress,
    /// The second strongest stress.
    SecondaryStress,
    /// The weakest stress.
    TertiaryStress,
    /// A pause within a transcript.
    Silence,
    /// Vocal noise that is not speech.
    NonSpeechSegment,
    /// The seam between two morphemes.
    MorphemeBoundary,
    /// The start or end of a word.
    WordBoundary,
    /// The start or end of an utterance.
    UtteranceBoundary,
    /// The edge of a tone group.
    ToneGroupBoundary,
    /// A falling juncture.
    FallingOrDecliningJuncture,
    /// A rising juncture.
    RisingOrInternalJuncture,
    /// A fall-rise juncture.
    FallRiseOrNonTerminalJuncture,
}

/// Why a text is not the textual form of a unit.
#[derive(Clone, Copy, Debug, PartialEq, Eq, Structural)]
pub enum UnitError {
    /// The text is empty.
    NoSymbols,
    /// The text is longer than any phone with its auxiliary symbol.
    TooLong,
    /// The text does not name an ARPABET phone.
    InvalidPhone,
    /// The text does not name a stress or auxiliary symbol.
    InvalidSymbol,
    /// The text is not a punctuation mark.
    InvalidPunctuation,
    /// The text is not an IPA phone that has an ARPABET counterpart.
    UnsupportedIpa,
    /// The text is neither a unit's textual form nor a single character.
    NotAUnit,
}

impl UnitError {
    /// The message that describes this error.
    pub open spec fn message_text(self) -> Seq<char> {
        match self {
            UnitError::NoSymbols => "no symbols provided"@,
            UnitError::TooLong => "input data too long"@,
            UnitError::InvalidPhone => "invalid phone"@,
            UnitError::InvalidSymbol => "invalid stress or auxiliary symbol"@,
            UnitError::InvalidPunctuation => "invalid punctuation"@,
            UnitError::UnsupportedIpa => "unsupported or invalid IPA phone"@,
            UnitError::NotAUnit => "failed to fall back to a character unit"@,
        }
    }

    /// The textual form, as a string.
    pub fn to_string(&self) -> (s: String)
        ensures
            s@ == self.message_text(),
    {
        match self {
            UnitError::NoSymbols => "no symbols provided".to_owned(),
            UnitError::TooLong => "input data too long".to_owned(),
            UnitError::InvalidPhone => "invalid phone".to_owned(),
            UnitError::InvalidSymbol => "invalid stress or auxiliary symbol".to_owned(),
            UnitError::InvalidPunctuation => "invalid punctuation".to_owned(),
            UnitError::UnsupportedIpa => "unsupported or invalid IPA phone".to_owned(),
            UnitError::NotAUnit => "failed to fall back to a character unit".to_owned(),
        }
    }
}

/// The phone that `s` names in ARPABET, if it names one.
pub open spec fn arpa_phone(s: Seq<char>) -> Option<ArpaPhone> {
    if s.len() == 1 {
        match s[0] {
            'B' => Some(ArpaPhone::B),
            'D' => Some(ArpaPhone::D),
            'F' => Some(ArpaPhone::F),
            'G' => Some(ArpaPhone::G),
            'K' => Some(ArpaPhone::K),
            'L' => Some(ArpaPhone::L),
            'M' => Some(ArpaPhone::M),
            'N' => Some(ArpaPhone::N),
            'P' => Some(ArpaPhone::P),
            'R' => Some(ArpaPhone::R),
            'S' => Some(ArpaPhone::S),
            'T' => Some(ArpaPhone::T),
            'V' => Some(ArpaPhone::V),
            'W' => Some(ArpaPhone::W),
            'Y' => Some(ArpaPhone::Y),
            'Z' => Some(ArpaPhone::Z),
            _ => None,
        }
    } else if s.len() == 2 {
        match (s[0], s[1]) {
            ('A', 'A') => Some(ArpaPhone::Aa),
            ('A', 'E') => Some(ArpaPhone::Ae),
            ('A', 'H') => Some(ArpaPhone::Ah),
            ('A', 'O') => Some(ArpaPhone::Ao),
            ('A', 'W') => Some(ArpaPhone::Aw),
            ('A', 'Y') => Some(ArpaPhone::Ay),
            ('C', 'H') => Some(ArpaPhone::Ch),
            ('D', 'H') => Some(ArpaPhone::Dh),
            ('E', 'H') => Some(ArpaPhone::Eh),
            ('E', 'R') => Some(ArpaPhone::Er),
            ('E', 'Y') => Some(ArpaPhone::Ey),
            ('H', 'H') => Some(ArpaPhone::Hh),
            ('I', 'H') => Some(ArpaPhone::Ih),
            ('I', 'Y') => Some(ArpaPhone::Iy),
            ('J', 'H') => Some(ArpaPhone::Jh),
            ('N', 'G') => Some(ArpaPhone::Ng),
            ('O', 'W') => Some(ArpaPhone::Ow),
            ('O', 'Y') => Some(ArpaPhone::Oy),
            ('S', 'H') => Some(ArpaPhone::Sh),
            ('T', 'H') => Some(ArpaPhone::Th),
            ('U', 'H') => Some(ArpaPhone::Uh),
            ('U', 'W') => Some(ArpaPhone::Uw),
            ('Z', 'H') => Some(ArpaPhone::Zh),
            _ => None,
        }
    } else {
        None
    }
}

/// The auxiliary symbol that `s` spells, if it spells one. The full stop
/// and the question mark are accepted for the falling and the rising
/// juncture.
pub open spec fn auxiliary_symbol(s: Seq<char>) -> Option<AuxiliarySymbol> {
    if s.len() == 1 {
        match s[0] {
            '0' => Some(AuxiliarySymbol::NoStress),
            '1' => Some(AuxiliarySymbol::PrimaryStress),
            '2' => Some(AuxiliarySymbol::SecondaryStress),
            '3' => Some(AuxiliarySymbol::TertiaryStress),
            '-' => Some(AuxiliarySymbol::Silence),
            '!' => Some(AuxiliarySymbol::NonSpeechSegment),
            '+' => Some(AuxiliarySymbol::MorphemeBoundary),
            '/' => Some(AuxiliarySymbol::WordBoundary),
            '#' => Some(AuxiliarySymbol::UtteranceBoundary),
            ':' => Some(AuxiliarySymbol::ToneGroupBoundary),
            '.' => Some(AuxiliarySymbol::FallingOrDecliningJuncture),
            '?' => Some(AuxiliarySymbol::RisingOrInternalJuncture),
            _ => None,
        }
    } else if s.len() == 2 {
        match (s[0], s[1]) {
            (':', '1') => Some(AuxiliarySymbol::FallingOrDecliningJuncture),
            (':', '2') => Some(AuxiliarySymbol::RisingOrInternalJuncture),
            (':', '3') => Some(AuxiliarySymbol::FallRiseOrNonTerminalJuncture),
            _ => None,
        }
    } else {
        None
    }
}

/// The punctuation mark that `c` is, if it is one.
pub open spec fn punctuation_mark(c: char) -> Option<Punctuation> {
    match c {
        '.' => Some(Punctuation::FullStop),
        ',' => Some(Punctuation::Comma),
        '?' => Some(Punctuation::QuestionMark),
        '!' => Some(Punctuation::ExclamationMark),
        '-' => Some(Punctuation::Dash),
        '(' => Some(Punctuation::OpenBracket),
        ')' => Some(Punctuation::CloseBracket),
        ':' => Some(Punctuation::Colon),
        ';' => Some(Punctuation::SemiColon),
        '\'' => Some(Punctuation::Apostrophe),
        _ => None,
    }
}

/// The ARPABET phone that stands for the IPA phone `s`, if there is one.
pub open spec fn ipa_phone(s: Seq<char>) -> Option<ArpaPhone> {
    if s.len() == 1 {
        match s[0] {
            '\u{252}' | '\u{251}' => Some(ArpaPhone::Aa),
            '\u{E6}' => Some(ArpaPhone::Ae),
            '\u{28C}' | '\u{259}' => Some(ArpaPhone::Ah),
            '\u{254}' => Some(ArpaPhone::Ao),
            '\u{25B}' => Some(ArpaPhone::Eh),
            '\u{25D}' | '\u{25A}' => Some(ArpaPhone::Er),
            '\u{26A}' => Some(ArpaPhone::Ih),
            'i' => Some(ArpaPhone::Iy),
            '\u{28A}' => Some(ArpaPhone::Uh),
            'u' => Some(ArpaPhone::Uw),
            'b' => Some(ArpaPhone::B),
            'd' => Some(ArpaPhone::D),
            '\u{F0}' => Some(ArpaPhone::Dh),
            'f' => Some(ArpaPhone::F),
            '\u{261}' => Some(ArpaPhone::G),
            'h' => Some(ArpaPhone::Hh),
            'k' => Some(ArpaPhone::K),
            'l' => Some(ArpaPhone::L),
            'm' => Some(ArpaPhone::M),
            'n' => Some(ArpaPhone::N),
            '\u{14B}' => Some(ArpaPhone::Ng),
            'p' => Some(ArpaPhone::P),
            '\u{279}' => Some(ArpaPhone::R),
            's' => Some(ArpaPhone::S),
            '\u{283}' => Some(ArpaPhone::Sh),
            't' => Some(ArpaPhone::T),
            '\u{3B8}' => Some(ArpaPhone::Th),
            'v' => Some(ArpaPhone::V),
            'w' => Some(ArpaPhone::W),
            'j' => Some(ArpaPhone::Y),
            'z' => Some(ArpaPhone::Z),
            '\u{292}' => Some(ArpaPhone::Zh),
            _ => None,
        }
    } else if s.len() == 2 {
        match (s[0], s[1]) {
            ('a', '\u{28A}') => Some(ArpaPhone::Aw),
            ('a', '\u{26A}') => Some(ArpaPhone::Ay),
            ('e', '\u{26A}') => Some(ArpaPhone::Ey),
            ('o', '\u{28A}') => Some(ArpaPhone::Ow),
            ('\u{254}', '\u{26A}') => Some(ArpaPhone::Oy),
            ('t', '\u{283}') => Some(ArpaPhone::Ch),
            ('d', '\u{292}') => Some(ArpaPhone::Jh),
            _ => None,
        }
    } else if s.len() == 3 {
        match (s[0], s[1], s[2]) {
            ('t', '\u{361}', '\u{283}') => Some(ArpaPhone::Ch),
            ('d', '\u{361}', '\u{292}') => Some(ArpaPhone::Jh),
            _ => None,
        }
    } else {
        None
    }
}

/// The letters that can stand second in a two-letter phone.
pub open spec fn is_phone_letter(c: char) -> bool {
    c == 'A' || c == 'E' || c == 'H' || c == 'O' || c == 'W' || c == 'Y' || c == 'B' || c == 'C'
        || c == 'D' || c == 'F' || c == 'G' || c == 'I' || c == 'J' || c == 'K' || c == 'L' || c
        == 'M' || c == 'N' || c == 'P' || c == 'R' || c == 'S' || c == 'U' || c == 'V' || c == 'Z'
}

/// Where the phone ends in a text of a phone and its auxiliary symbol. A
/// text of four characters is two and two; otherwise the phone has two
/// letters exactly when the second character is a letter of a phone.
pub open spec fn phone_end(s: Seq<char>) -> int {
    if s.len() == 1 {
        1
    } else if s.len() == 4 {
        2
    } else if is_phone_letter(s[1]) {
        2
    } else {
        1
    }
}

/// The phonetic unit that `s` spells: a phone, then at most one auxiliary
/// symbol.
pub open spec fn phonetic_unit(s: Seq<char>) -> Result<PhoneticUnit, UnitError> {
    if s.len() == 0 {
        Err(UnitError::NoSymbols)
    } else if s.len() > 4 {
        Err(UnitError::TooLong)
    } else {
        let stop = phone_end(s);
        match arpa_phone(s.take(stop)) {
            None => Err(UnitError::InvalidPhone),
            Some(phone) => if stop == s.len() {
                Ok(PhoneticUnit { phone, context: None })
            } else {
                match auxiliary_symbol(s.skip(stop)) {
                    None => Err(UnitError::InvalidSymbol),
                    Some(symbol) => Ok(PhoneticUnit { phone, context: Some(symbol) }),
                }
            },
        }
    }
}

/// The punctuation mark that `s` spells once trimmed.
pub open spec fn punctuation(s: Seq<char>) -> Result<Punctuation, UnitError> {
    let t = trim(s);
    if t.len() == 1 && punctuation_mark(t[0]) is Some {
        Ok(punctuation_mark(t[0])->0)
    } else {
        Err(UnitError::InvalidPunctuation)
    }
}

/// The textual form of the padding unit.
pub open spec fn padding_text() -> Seq<char> {
    seq!['<', 'P', 'A', 'D', '>']
}

/// The textual form of the unknown unit.
pub open spec fn unknown_text() -> Seq<char> {
    seq!['<', 'U', 'N', 'K', '>']
}

/// The unit that `s` spells. Whitespace alone is a space; a punctuation
/// mark and the two placeholders stand for themselves; then a phone is
/// tried, and last a single character is taken as it is.
pub open spec fn unit(s: Seq<char>) -> Result<Unit, UnitError> {
    let t = trim(s);
    if t.len() == 0 && s.len() > 0 {
        Ok(Unit::Space)
    } else if t.len() == 1 && punctuation_mark(t[0]) is Some {
        Ok(Unit::Punct(punctuation_mark(t[0])->0))
    } else if t == padding_text() {
        Ok(Unit::Padding)
    } else if t == unknown_text() {
        Ok(Unit::Unk)
    } else {
        match phonetic_unit(t) {
            Ok(p) => Ok(Unit::Phone(p)),
            Err(_) => if t.len() == 1 {
                Ok(Unit::Character(t[0]))
            } else {
                Err(UnitError::NotAUnit)
            },
        }
    }
}

impl Punctuation {
    /// Whether the mark ends a sentence.
    pub open spec fn ends_sentence(self) -> bool {
        self == Punctuation::FullStop || self == Punctuation::QuestionMark || self
            == Punctuation::ExclamationMark
    }

    /// Whether the mark makes the speaker pause.
    pub open spec fn pauses(self) -> bool {
        self.ends_sentence() || self == Punctuation::Comma || self == Punctuation::SemiColon
    }

    /// The character that writes this mark.
    pub open spec fn symbol(self) -> char {
        match self {
            Punctuation::FullStop => '.',
            Punctuation::Comma => ',',
            Punctuation::QuestionMark => '?',
            Punctuation::ExclamationMark => '!',
            Punctuation::Dash => '-',
            Punctuation::OpenBracket => '(',
            Punctuation::CloseBracket => ')',
            Punctuation::Colon => ':',
            Punctuation::SemiColon => ';',
            Punctuation::Apostrophe => '\'',
        }
    }

    /// Whether the mark ends a sentence: the full stop, the question mark
    /// and the exclamation mark do.
    pub fn is_sentence_end(&self) -> (r: bool)
        ensures
            r == self.ends_sentence(),
    {
        match self {
            Punctuation::FullStop | Punctuation::QuestionMark | Punctuation::ExclamationMark => true,
            _ => false,
        }
    }

    /// Whether the mark should result in a pause: those that end a
    /// sentence, the comma and the semicolon.
    pub fn is_pause(&self) -> (r: bool)
        ensures
            r == self.pauses(),
    {
        self.is_sentence_end() || match self {
            Punctuation::Comma | Punctuation::SemiColon => true,
            _ => false,
        }
    }

    /// The character that writes the mark.
    pub fn to_char(&self) -> (c: char)
        ensures
            c == self.symbol(),
    {
        match self {
            Punctuation::FullStop => '.',
            Punctuation::Comma => ',',
            Punctuation::QuestionMark => '?',
            Punctuation::ExclamationMark => '!',
            Punctuation::Dash => '-',
            Punctuation::OpenBracket => '(',
            Punctuation::CloseBracket => ')',
            Punctuation::Colon => ':',
            Punctuation::SemiColon => ';',
            Punctuation::Apostrophe => '\'',
        }
    }

    /// The textual form, as a string.
    pub fn to_string(&self) -> (s: String)
        ensures
            s@ == seq![self.symbol()],
    {
        let chars = vec![self.to_char()];
        to_text(&chars)
    }

    /// The mark that `c` is.
    pub fn from_char(c: char) -> (r: Option<Punctuation>)
        ensures
            r == punctuation_mark(c),
    {
        match c {
            '.' => Some(Punctuation::FullStop),
            ',' => Some(Punctuation::Comma),
            '?' => Some(Punctuation::QuestionMark),
            '!' => Some(Punctuation::ExclamationMark),
            '-' => Some(Punctuation::Dash),
            '(' => Some(Punctuation::OpenBracket),
            ')' => Some(Punctuation::CloseBracket),
            ':' => Some(Punctuation::Colon),
            ';' => Some(Punctuation::SemiColon),
            '\'' => Some(Punctuation::Apostrophe),
            _ => None,
    }
    }

    /// Reads a punctuation mark, ignoring whitespace around it.
    pub fn from_str(s: &str) -> (r: Result<Punctuation, UnitError>)
        ensures
            r == punctuation(s@),
    {
        let chars = to_chars(s);
        let t = trimmed(&chars);
        if t.len() == 1 {
            match Punctuation::from_char(t[0]) {
                Some(p) => Ok(p),
                None => Err(UnitError::InvalidPunctuation),
            }
        } else {
            Err(UnitError::InvalidPunctuation)
        }
    }
}

impl ArpaPhone {
    /// The letters that write this phone.
    pub open spec fn symbol(self) -> Seq<char> {
        match self {
            ArpaPhone::Aa => seq!['A', 'A'],
            ArpaPhone::Ae => seq!['A', 'E'],
            ArpaPhone::Ah => seq!['A', 'H'],
            ArpaPhone::Ao => seq!['A', 'O'],
            ArpaPhone::Aw => seq!['A', 'W'],
            ArpaPhone::Ay => seq!['A', 'Y'],
            ArpaPhone::B => seq!['B'],
            ArpaPhone::Ch => seq!['C', 'H'],
            ArpaPhone::D => seq!['D'],
            ArpaPhone::Dh => seq!['D', 'H'],
            ArpaPhone::Eh => seq!['E', 'H'],
            ArpaPhone::Er => seq!['E', 'R'],
            ArpaPhone::Ey => seq!['E', 'Y'],
            ArpaPhone::F => seq!['F'],
            ArpaPhone::G => seq!['G'],
            ArpaPhone::Hh => seq!['H', 'H'],
            ArpaPhone::Ih => seq!['I', 'H'],
            ArpaPhone::Iy => seq!['I', 'Y'],
            ArpaPhone::Jh => seq!['J', 'H'],
            ArpaPhone::K => seq!['K'],
            ArpaPhone::L => seq!['L'],
            ArpaPhone::M => seq!['M'],
            ArpaPhone::N => seq!['N'],
            ArpaPhone::Ng => seq!['N', 'G'],
            ArpaPhone::Ow => seq!['O', 'W'],
            ArpaPhone::Oy => seq!['O', 'Y'],
            ArpaPhone::P => seq!['P'],
            ArpaPhone::R => seq!['R'],
            ArpaPhone::S => seq!['S'],
            ArpaPhone::Sh => seq!['S', 'H'],
            ArpaPhone::T => seq!['T'],
            ArpaPhone::Th => seq!['T', 'H'],
            ArpaPhone::Uh => seq!['U', 'H'],
            ArpaPhone::Uw => seq!['U', 'W'],
            ArpaPhone::V => seq!['V'],
            ArpaPhone::W => seq!['W'],
            ArpaPhone::Y => seq!['Y'],
            ArpaPhone::Z => seq!['Z'],
            ArpaPhone::Zh => seq!['Z', 'H'],
        }
    }

    /// Whether the phone is a vowel, the kind of phone that carries stress.
    pub open spec fn is_vowel(self) -> bool {
        match self {
            ArpaPhone::Aa
            | ArpaPhone::Ae
            | ArpaPhone::Ah
            | ArpaPhone::Ao
            | ArpaPhone::Aw
            | ArpaPhone::Ay
            | ArpaPhone::Eh
            | ArpaPhone::Er
            | ArpaPhone::Ey
            | ArpaPhone::Ih
            | ArpaPhone::Iy
            | ArpaPhone::Ow
            | ArpaPhone::Oy
            | ArpaPhone::Uh
            | ArpaPhone::Uw => true,
            _ => false,
        }
    }

    /// The position of the phone in the alphabetical list of phones.
    pub open spec fn index(self) -> int {
        match self {
            ArpaPhone::Aa => 0,
            ArpaPhone::Ae => 1,
            ArpaPhone::Ah => 2,
            ArpaPhone::Ao => 3,
            ArpaPhone::Aw => 4,
            ArpaPhone::Ay => 5,
            ArpaPhone::B => 6,
            ArpaPhone::Ch => 7,
            ArpaPhone::D => 8,
            ArpaPhone::Dh => 9,
            ArpaPhone::Eh => 10,
            ArpaPhone::Er => 11,
            ArpaPhone::Ey => 12,
            ArpaPhone::F => 13,
            ArpaPhone::G => 14,
            ArpaPhone::Hh => 15,
            ArpaPhone::Ih => 16,
            ArpaPhone::Iy => 17,
            ArpaPhone::Jh => 18,
            ArpaPhone::K => 19,
            ArpaPhone::L => 20,
            ArpaPhone::M => 21,
            ArpaPhone::N => 22,
            ArpaPhone::Ng => 23,
            ArpaPhone::Ow => 24,
            ArpaPhone::Oy => 25,
            ArpaPhone::P => 26,
            ArpaPhone::R => 27,
            ArpaPhone::S => 28,
            ArpaPhone::Sh => 29,
            ArpaPhone::T => 30,
            ArpaPhone::Th => 31,
            ArpaPhone::Uh => 32,
            ArpaPhone::Uw => 33,
            ArpaPhone::V => 34,
            ArpaPhone::W => 35,
            ArpaPhone::Y => 36,
            ArpaPhone::Z => 37,
            ArpaPhone::Zh => 38,
        }
    }

    /// The characters of the textual form.
    pub fn letters(&self) -> (v: Vec<char>)
        ensures
            v@ == self.symbol(),
    {
        match self {
            ArpaPhone::Aa => vec!['A', 'A'],
            ArpaPhone::Ae => vec!['A', 'E'],
            ArpaPhone::Ah => vec!['A', 'H'],
            ArpaPhone::Ao => vec!['A', 'O'],
            ArpaPhone::Aw => vec!['A', 'W'],
            ArpaPhone::Ay => vec!['A', 'Y'],
            ArpaPhone::B => vec!['B'],
            ArpaPhone::Ch => vec!['C', 'H'],
            ArpaPhone::D => vec!['D'],
            ArpaPhone::Dh => vec!['D', 'H'],
            ArpaPhone::Eh => vec!['E', 'H'],
            ArpaPhone::Er => vec!['E', 'R'],
            ArpaPhone::Ey => vec!['E', 'Y'],
            ArpaPhone::F => vec!['F'],
            ArpaPhone::G => vec!['G'],
            ArpaPhone::Hh => vec!['H', 'H'],
            ArpaPhone::Ih => vec!['I', 'H'],
            ArpaPhone::Iy => vec!['I', 'Y'],
            ArpaPhone::Jh => vec!['J', 'H'],
            ArpaPhone::K => vec!['K'],
            ArpaPhone::L => vec!['L'],
            ArpaPhone::M => vec!['M'],
            ArpaPhone::N => vec!['N'],
            ArpaPhone::Ng => vec!['N', 'G'],
            ArpaPhone::Ow => vec!['O', 'W'],
            ArpaPhone::Oy => vec!['O', 'Y'],
            ArpaPhone::P => vec!['P'],
            ArpaPhone::R => vec!['R'],
            ArpaPhone::S => vec!['S'],
            ArpaPhone::Sh => vec!['S', 'H'],
            ArpaPhone::T => vec!['T'],
            ArpaPhone::Th => vec!['T', 'H'],
            ArpaPhone::Uh => vec!['U', 'H'],
            ArpaPhone::Uw => vec!['U', 'W'],
            ArpaPhone::V => vec!['V'],
            ArpaPhone::W => vec!['W'],
            ArpaPhone::Y => vec!['Y'],
            ArpaPhone::Z => vec!['Z'],
            ArpaPhone::Zh => vec!['Z', 'H'],
        }
    }

    /// The textual form, as a string.
    pub fn to_string(&self) -> (s: String)
        ensures
            s@ == self.symbol(),
    {
        to_text(&self.letters())
    }

    /// Whether the phone is a vowel.
    pub fn vowel(&self) -> (r: bool)
        ensures
            r == self.is_vowel(),
    {
        match self {
            ArpaPhone::Aa
            | ArpaPhone::Ae
            | ArpaPhone::Ah
            | ArpaPhone::Ao
            | ArpaPhone::Aw
            | ArpaPhone::Ay
            | ArpaPhone::Eh
            | ArpaPhone::Er
            | ArpaPhone::Ey
            | ArpaPhone::Ih
            | ArpaPhone::Iy
            | ArpaPhone::Ow
            | ArpaPhone::Oy
            | ArpaPhone::Uh
            | ArpaPhone::Uw => true,
            _ => false,
        }
    }

    /// The position in the list, as a number.
    pub fn ordinal(&self) -> (r: u8)
        ensures
            r == self.index(),
            r < 39,
    {
        match self {
            ArpaPhone::Aa => 0,
            ArpaPhone::Ae => 1,
            ArpaPhone::Ah => 2,
            ArpaPhone::Ao => 3,
            ArpaPhone::Aw => 4,
            ArpaPhone::Ay => 5,
            ArpaPhone::B => 6,
            ArpaPhone::Ch => 7,
            ArpaPhone::D => 8,
            ArpaPhone::Dh => 9,
            ArpaPhone::Eh => 10,
            ArpaPhone::Er => 11,
            ArpaPhone::Ey => 12,
            ArpaPhone::F => 13,
            ArpaPhone::G => 14,
            ArpaPhone::Hh => 15,
            ArpaPhone::Ih => 16,
            ArpaPhone::Iy => 17,
            ArpaPhone::Jh => 18,
            ArpaPhone::K => 19,
            ArpaPhone::L => 20,
            ArpaPhone::M => 21,
            ArpaPhone::N => 22,
            ArpaPhone::Ng => 23,
            ArpaPhone::Ow => 24,
            ArpaPhone::Oy => 25,
            ArpaPhone::P => 26,
            ArpaPhone::R => 27,
            ArpaPhone::S => 28,
            ArpaPhone::Sh => 29,
            ArpaPhone::T => 30,
            ArpaPhone::Th => 31,
            ArpaPhone::Uh => 32,
            ArpaPhone::Uw => 33,
            ArpaPhone::V => 34,
            ArpaPhone::W => 35,
            ArpaPhone::Y => 36,
            ArpaPhone::Z => 37,
            ArpaPhone::Zh => 38,
        }
    }

    /// The phone at position `i` of the alphabetical list of phones.
    pub open spec fn at(i: u8) -> ArpaPhone {
        match i {
            0 => ArpaPhone::Aa,
            1 => ArpaPhone::Ae,
            2 => ArpaPhone::Ah,
            3 => ArpaPhone::Ao,
            4 => ArpaPhone::Aw,
            5 => ArpaPhone::Ay,
            6 => ArpaPhone::B,
            7 => ArpaPhone::Ch,
            8 => ArpaPhone::D,
            9 => ArpaPhone::Dh,
            10 => ArpaPhone::Eh,
            11 => ArpaPhone::Er,
            12 => ArpaPhone::Ey,
            13 => ArpaPhone::F,
            14 => ArpaPhone::G,
            15 => ArpaPhone::Hh,
            16 => ArpaPhone::Ih,
            17 => ArpaPhone::Iy,
            18 => ArpaPhone::Jh,
            19 => ArpaPhone::K,
            20 => ArpaPhone::L,
            21 => ArpaPhone::M,
            22 => ArpaPhone::N,
            23 => ArpaPhone::Ng,
            24 => ArpaPhone::Ow,
            25 => ArpaPhone::Oy,
            26 => ArpaPhone::P,
            27 => ArpaPhone::R,
            28 => ArpaPhone::S,
            29 => ArpaPhone::Sh,
            30 => ArpaPhone::T,
            31 => ArpaPhone::Th,
            32 => ArpaPhone::Uh,
            33 => ArpaPhone::Uw,
            34 => ArpaPhone::V,
            35 => ArpaPhone::W,
            36 => ArpaPhone::Y,
            37 => ArpaPhone::Z,
            _ => ArpaPhone::Zh,
        }
    }

    /// The phone at a position of the alphabetical list. Positions
    /// beyond the list give the last phone.
    pub fn from_ordinal(i: u8) -> (p: ArpaPhone)
        ensures
            p == ArpaPhone::at(i),
            i < 39 ==> p.index() == i,
    {
        match i {
            0 => ArpaPhone::Aa,
            1 => ArpaPhone::Ae,
            2 => ArpaPhone::Ah,
            3 => ArpaPhone::Ao,
            4 => ArpaPhone::Aw,
            5 => ArpaPhone::Ay,
            6 => ArpaPhone::B,
            7 => ArpaPhone::Ch,
            8 => ArpaPhone::D,
            9 => ArpaPhone::Dh,
            10 => ArpaPhone::Eh,
            11 => ArpaPhone::Er,
            12 => ArpaPhone::Ey,
            13 => ArpaPhone::F,
            14 => ArpaPhone::G,
            15 => ArpaPhone::Hh,
            16 => ArpaPhone::Ih,
            17 => ArpaPhone::Iy,
            18 => ArpaPhone::Jh,
            19 => ArpaPhone::K,
            20 => ArpaPhone::L,
            21 => ArpaPhone::M,
            22 => ArpaPhone::N,
            23 => ArpaPhone::Ng,
            24 => ArpaPhone::Ow,
            25 => ArpaPhone::Oy,
            26 => ArpaPhone::P,
            27 => ArpaPhone::R,
            28 => ArpaPhone::S,
            29 => ArpaPhone::Sh,
            30 => ArpaPhone::T,
            31 => ArpaPhone::Th,
            32 => ArpaPhone::Uh,
            33 => ArpaPhone::Uw,
            34 => ArpaPhone::V,
            35 => ArpaPhone::W,
            36 => ArpaPhone::Y,
            37 => ArpaPhone::Z,
            _ => ArpaPhone::Zh,
        }
    }

    /// The phone that the characters `s` name.
    pub fn from_chars(s: &Vec<char>) -> (r: Option<ArpaPhone>)
        ensures
            r == arpa_phone(s@),
    {
        if s.len() == 1 {
            match s[0] {
                'B' => Some(ArpaPhone::B),
                'D' => Some(ArpaPhone::D),
                'F' => Some(ArpaPhone::F),
                'G' => Some(ArpaPhone::G),
                'K' => Some(ArpaPhone::K),
                'L' => Some(ArpaPhone::L),
                'M' => Some(ArpaPhone::M),
                'N' => Some(ArpaPhone::N),
                'P' => Some(ArpaPhone::P),
                'R' => Some(ArpaPhone::R),
                'S' => Some(ArpaPhone::S),
                'T' => Some(ArpaPhone::T),
                'V' => Some(ArpaPhone::V),
                'W' => Some(ArpaPhone::W),
                'Y' => Some(ArpaPhone::Y),
                'Z' => Some(ArpaPhone::Z),
                _ => None,
            }
        } else if s.len() == 2 {
            match (s[0], s[1]) {
                ('A', 'A') => Some(ArpaPhone::Aa),
                ('A', 'E') => Some(ArpaPhone::Ae),
                ('A', 'H') => Some(ArpaPhone::Ah),
                ('A', 'O') => Some(ArpaPhone::Ao),
                ('A', 'W') => Some(ArpaPhone::Aw),
                ('A', 'Y') => Some(ArpaPhone::Ay),
                ('C', 'H') => Some(ArpaPhone::Ch),
                ('D', 'H') => Some(ArpaPhone::Dh),
                ('E', 'H') => Some(ArpaPhone::Eh),
                ('E', 'R') => Some(ArpaPhone::Er),
                ('E', 'Y') => Some(ArpaPhone::Ey),
                ('H', 'H') => Some(ArpaPhone::Hh),
                ('I', 'H') => Some(ArpaPhone::Ih),
                ('I', 'Y') => Some(ArpaPhone::Iy),
                ('J', 'H') => Some(ArpaPhone::Jh),
                ('N', 'G') => Some(ArpaPhone::Ng),
                ('O', 'W') => Some(ArpaPhone::Ow),
                ('O', 'Y') => Some(ArpaPhone::Oy),
                ('S', 'H') => Some(ArpaPhone::Sh),
                ('T', 'H') => Some(ArpaPhone::Th),
                ('U', 'H') => Some(ArpaPhone::Uh),
                ('U', 'W') => Some(ArpaPhone::Uw),
                ('Z', 'H') => Some(ArpaPhone::Zh),
                _ => None,
            }
        } else {
            None
    }
    }

    /// Reads a phone from its one or two capital letters.
    pub fn from_str(s: &str) -> (r: Result<ArpaPhone, UnitError>)
        ensures
            r == match arpa_phone(s@) {
                Some(p) => Ok::<ArpaPhone, UnitError>(p),
                None => Err(UnitError::InvalidPhone),
            },
    {
        let chars = to_chars(s);
        match ArpaPhone::from_chars(&chars) {
            Some(p) => Ok(p),
            None => Err(UnitError::InvalidPhone),
        }
    }
}

impl AuxiliarySymbol {
    /// The characters that write this symbol.
    pub open spec fn symbol(self) -> Seq<char> {
        match self {
            AuxiliarySymbol::NoStress => seq!['0'],
            AuxiliarySymbol::PrimaryStress => seq!['1'],
            AuxiliarySymbol::SecondaryStress => seq!['2'],
            AuxiliarySymbol::TertiaryStress => seq!['3'],
            AuxiliarySymbol::Silence => seq!['-'],
            AuxiliarySymbol::NonSpeechSegment => seq!['!'],
            AuxiliarySymbol::MorphemeBoundary => seq!['+'],
            AuxiliarySymbol::WordBoundary => seq!['/'],
            AuxiliarySymbol::UtteranceBoundary => seq!['#'],
            AuxiliarySymbol::ToneGroupBoundary => seq![':'],
            AuxiliarySymbol::FallingOrDecliningJuncture => seq![':', '1'],
            AuxiliarySymbol::RisingOrInternalJuncture => seq![':', '2'],
            AuxiliarySymbol::FallRiseOrNonTerminalJuncture => seq![':', '3'],
        }
    }

    /// The position of the symbol in the list of auxiliary symbols.
    pub open spec fn index(self) -> int {
        match self {
            AuxiliarySymbol::NoStress => 0,
            AuxiliarySymbol::PrimaryStress => 1,
            AuxiliarySymbol::SecondaryStress => 2,
            AuxiliarySymbol::TertiaryStress => 3,
            AuxiliarySymbol::Silence => 4,
            AuxiliarySymbol::NonSpeechSegment => 5,
            AuxiliarySymbol::MorphemeBoundary => 6,
            AuxiliarySymbol::WordBoundary => 7,
            AuxiliarySymbol::UtteranceBoundary => 8,
            AuxiliarySymbol::ToneGroupBoundary => 9,
            AuxiliarySymbol::FallingOrDecliningJuncture => 10,
            AuxiliarySymbol::RisingOrInternalJuncture => 11,
            AuxiliarySymbol::FallRiseOrNonTerminalJuncture => 12,
        }
    }

    /// The characters of the textual form.
    pub fn letters(&self) -> (v: Vec<char>)
        ensures
            v@ == self.symbol(),
    {
        match self {
            AuxiliarySymbol::NoStress => vec!['0'],
            AuxiliarySymbol::PrimaryStress => vec!['1'],
            AuxiliarySymbol::SecondaryStress => vec!['2'],
            AuxiliarySymbol::TertiaryStress => vec!['3'],
            AuxiliarySymbol::Silence => vec!['-'],
            AuxiliarySymbol::NonSpeechSegment => vec!['!'],
            AuxiliarySymbol::MorphemeBoundary => vec!['+'],
            AuxiliarySymbol::WordBoundary => vec!['/'],
            AuxiliarySymbol::UtteranceBoundary => vec!['#'],
            AuxiliarySymbol::ToneGroupBoundary => vec![':'],
            AuxiliarySymbol::FallingOrDecliningJuncture => vec![':', '1'],
            AuxiliarySymbol::RisingOrInternalJuncture => vec![':', '2'],
            AuxiliarySymbol::FallRiseOrNonTerminalJuncture => vec![':', '3'],
        }
    }

    /// The textual form, as a string.
    pub fn to_string(&self) -> (s: String)
        ensures
            s@ == self.symbol(),
    {
        to_text(&self.letters())
    }

    /// The position in the list, as a number.
    pub fn ordinal(&self) -> (r: u8)
        ensures
            r == self.index(),
            r < 13,
    {
        match self {
            AuxiliarySymbol::NoStress => 0,
            AuxiliarySymbol::PrimaryStress => 1,
            AuxiliarySymbol::SecondaryStress => 2,
            AuxiliarySymbol::TertiaryStress => 3,
            AuxiliarySymbol::Silence => 4,
            AuxiliarySymbol::NonSpeechSegment => 5,
            AuxiliarySymbol::MorphemeBoundary => 6,
            AuxiliarySymbol::WordBoundary => 7,
            AuxiliarySymbol::UtteranceBoundary => 8,
            AuxiliarySymbol::ToneGroupBoundary => 9,
            AuxiliarySymbol::FallingOrDecliningJuncture => 10,
            AuxiliarySymbol::RisingOrInternalJuncture => 11,
            AuxiliarySymbol::FallRiseOrNonTerminalJuncture => 12,
        }
    }

    /// The symbol at position `i` of the list of auxiliary symbols.
    pub open spec fn at(i: u8) -> AuxiliarySymbol {
        match i {
            0 => AuxiliarySymbol::NoStress,
            1 => AuxiliarySymbol::PrimaryStress,
            2 => AuxiliarySymbol::SecondaryStress,
            3 => AuxiliarySymbol::TertiaryStress,
            4 => AuxiliarySymbol::Silence,
            5 => AuxiliarySymbol::NonSpeechSegment,
            6 => AuxiliarySymbol::MorphemeBoundary,
            7 => AuxiliarySymbol::WordBoundary,
            8 => AuxiliarySymbol::UtteranceBoundary,
            9 => AuxiliarySymbol::ToneGroupBoundary,
            10 => AuxiliarySymbol::FallingOrDecliningJuncture,
            11 => AuxiliarySymbol::RisingOrInternalJuncture,
            _ => AuxiliarySymbol::FallRiseOrNonTerminalJuncture,
        }
    }

    /// The symbol at a position of the list. Positions beyond the list
    /// give the last symbol.
    pub fn from_ordinal(i: u8) -> (a: AuxiliarySymbol)
        ensures
            a == AuxiliarySymbol::at(i),
            i < 13 ==> a.index() == i,
    {
        match i {
            0 => AuxiliarySymbol::NoStress,
            1 => AuxiliarySymbol::PrimaryStress,
            2 => AuxiliarySymbol::SecondaryStress,
            3 => AuxiliarySymbol::TertiaryStress,
            4 => AuxiliarySymbol::Silence,
            5 => AuxiliarySymbol::NonSpeechSegment,
            6 => AuxiliarySymbol::MorphemeBoundary,
            7 => AuxiliarySymbol::WordBoundary,
            8 => AuxiliarySymbol::UtteranceBoundary,
            9 => AuxiliarySymbol::ToneGroupBoundary,
            10 => AuxiliarySymbol::FallingOrDecliningJuncture,
            11 => AuxiliarySymbol::RisingOrInternalJuncture,
            _ => AuxiliarySymbol::FallRiseOrNonTerminalJuncture,
        }
    }

    /// The symbol that the characters `s` spell.
    pub fn from_chars(s: &Vec<char>) -> (r: Option<AuxiliarySymbol>)
        ensures
            r == auxiliary_symbol(s@),
    {
        if s.len() == 1 {
            match s[0] {
                '0' => Some(AuxiliarySymbol::NoStress),
                '1' => Some(AuxiliarySymbol::PrimaryStress),
                '2' => Some(AuxiliarySymbol::SecondaryStress),
                '3' => Some(AuxiliarySymbol::TertiaryStress),
                '-' => Some(AuxiliarySymbol::Silence),
                '!' => Some(AuxiliarySymbol::NonSpeechSegment),
                '+' => Some(AuxiliarySymbol::MorphemeBoundary),
                '/' => Some(AuxiliarySymbol::WordBoundary),
                '#' => Some(AuxiliarySymbol::UtteranceBoundary),
                ':' => Some(AuxiliarySymbol::ToneGroupBoundary),
                '.' => Some(AuxiliarySymbol::FallingOrDecliningJuncture),
                '?' => Some(AuxiliarySymbol::RisingOrInternalJuncture),
                _ => None,
            }
        } else if s.len() == 2 {
            match (s[0], s[1]) {
                (':', '1') => Some(AuxiliarySymbol::FallingOrDecliningJuncture),
                (':', '2') => Some(AuxiliarySymbol::RisingOrInternalJuncture),
                (':', '3') => Some(AuxiliarySymbol::FallRiseOrNonTerminalJuncture),
                _ => None,
            }
        } else {
            None
    }
    }

    /// Reads a stress or another auxiliary symbol.
    pub fn from_str(s: &str) -> (r: Result<AuxiliarySymbol, UnitError>)
        ensures
            r == match auxiliary_symbol(s@) {
                Some(a) => Ok::<AuxiliarySymbol, UnitError>(a),
                None => Err(UnitError::InvalidSymbol),
            },
    {
        let chars = to_chars(s);
        match AuxiliarySymbol::from_chars(&chars) {
            Some(a) => Ok(a),
            None => Err(UnitError::InvalidSymbol),
        }
    }
}

/// Decides whether a letter can stand second in a two-letter phone.
pub fn char_is_phone_letter(c: char) -> (r: bool)
    ensures
        r == is_phone_letter(c),
{
    c == 'A' || c == 'E' || c == 'H' || c == 'O' || c == 'W' || c == 'Y' || c == 'B' || c == 'C'
        || c == 'D' || c == 'F' || c == 'G' || c == 'I' || c == 'J' || c == 'K' || c == 'L' || c
        == 'M' || c == 'N' || c == 'P' || c == 'R' || c == 'S' || c == 'U' || c == 'V' || c == 'Z'
}

impl PhoneticUnit {
    /// The textual form: the phone, then the auxiliary symbol if there is
    /// one.
    pub open spec fn text(self) -> Seq<char> {
        match self.context {
            Some(symbol) => self.phone.symbol() + symbol.symbol(),
            None => self.phone.symbol(),
        }
    }

    /// The characters of the textual form.
    pub fn letters(&self) -> (v: Vec<char>)
        ensures
            v@ == self.text(),
    {
        let mut v = self.phone.letters();
        match self.context {
            Some(symbol) => {
                let tail = symbol.letters();
                append(&mut v, &tail);
            },
            None => {},
        }
        v
    }

    /// The textual form, as a string.
    pub fn to_string(&self) -> (s: String)
        ensures
            s@ == self.text(),
    {
        to_text(&self.letters())
    }

    /// The phonetic unit that the characters `s` spell.
    pub fn from_chars(s: &Vec<char>) -> (r: Result<PhoneticUnit, UnitError>)
        ensures
            r == phonetic_unit(s@),
    {
        let n = s.len();
        if n == 0 {
            return Err(UnitError::NoSymbols);
        }
        if n > 4 {
            return Err(UnitError::TooLong);
        }
        let stop: usize = if n == 1 {
            1
        } else if n == 4 {
            2
        } else if char_is_phone_letter(s[1]) {
            2
        } else {
            1
        };
        let head = slice(s, 0, stop);
        match ArpaPhone::from_chars(&head) {
            None => Err(UnitError::InvalidPhone),
            Some(phone) => {
                if stop == n {
                    Ok(PhoneticUnit { phone, context: None })
                } else {
                    let tail = slice(s, stop, n);
                    match AuxiliarySymbol::from_chars(&tail) {
                        None => Err(UnitError::InvalidSymbol),
                        Some(symbol) => Ok(PhoneticUnit { phone, context: Some(symbol) }),
                    }
                }
            },
        }
    }

    /// Reads a phone with its optional auxiliary symbol, such as `AH0`.
    /// The text has one to four characters; `NoSymbols` and `TooLong`
    /// report the other lengths.
    pub fn from_str(s: &str) -> (r: Result<PhoneticUnit, UnitError>)
        ensures
            r == phonetic_unit(s@),
    {
        let chars = to_chars(s);
        PhoneticUnit::from_chars(&chars)
    }
}

impl Unit {
    /// The textual form of the unit.
    pub open spec fn text(self) -> Seq<char> {
        match self {
            Unit::Phone(p) => p.text(),
            Unit::Unk => unknown_text(),
            Unit::Space => seq![' '],
            Unit::Punct(p) => seq![p.symbol()],
            Unit::Character(c) => seq![c],
            Unit::Padding => padding_text(),
        }
    }

    /// The characters of the textual form.
    pub fn letters(&self) -> (v: Vec<char>)
        ensures
            v@ == self.text(),
    {
        match self {
            Unit::Phone(p) => p.letters(),
            Unit::Unk => vec!['<', 'U', 'N', 'K', '>'],
            Unit::Space => vec![' '],
            Unit::Punct(p) => vec![p.to_char()],
            Unit::Character(c) => vec![*c],
            Unit::Padding => vec!['<', 'P', 'A', 'D', '>'],
        }
    }

    /// The textual form, as a string.
    pub fn to_string(&self) -> (s: String)
        ensures
            s@ == self.text(),
    {
        to_text(&self.letters())
    }

    /// The unit that the characters `s` spell.
    pub fn from_chars(s: &Vec<char>) -> (r: Result<Unit, UnitError>)
        ensures
            r == unit(s@),
    {
        let t = trimmed(s);
        if t.len() == 0 && s.len() > 0 {
            return Ok(Unit::Space);
        }
        if t.len() == 1 {
            match Punctuation::from_char(t[0]) {
                Some(p) => {
                    return Ok(Unit::Punct(p));
                },
                None => {},
            }
        }
        let pad = vec!['<', 'P', 'A', 'D', '>'];
        if same_text(&t, &pad) {
            return Ok(Unit::Padding);
        }
        let unk = vec!['<', 'U', 'N', 'K', '>'];
        if same_text(&t, &unk) {
            return Ok(Unit::Unk);
        }
        match PhoneticUnit::from_chars(&t) {
            Ok(p) => Ok(Unit::Phone(p)),
            Err(_) => {
                if t.len() == 1 {
                    Ok(Unit::Character(t[0]))
                } else {
                    Err(UnitError::NotAUnit)
                }
            },
        }
    }

    /// Reads a unit. Where a text is both a phone and a character, the
    /// phone wins.
    pub fn from_str(s: &str) -> (r: Result<Unit, UnitError>)
        ensures
            r == unit(s@),
    {
        let chars = to_chars(s);
        Unit::from_chars(&chars)
    }
}

/// The phone for the IPA characters `s`.
pub fn ipa_phone_of(s: &Vec<char>) -> (r: Option<ArpaPhone>)
    ensures
        r == ipa_phone(s@),
{
    if s.len() == 1 {
        match s[0] {
            '\u{252}' | '\u{251}' => Some(ArpaPhone::Aa),
            '\u{E6}' => Some(ArpaPhone::Ae),
            '\u{28C}' | '\u{259}' => Some(ArpaPhone::Ah),
            '\u{254}' => Some(ArpaPhone::Ao),
            '\u{25B}' => Some(ArpaPhone::Eh),
            '\u{25D}' | '\u{25A}' => Some(ArpaPhone::Er),
            '\u{26A}' => Some(ArpaPhone::Ih),
            'i' => Some(ArpaPhone::Iy),
            '\u{28A}' => Some(ArpaPhone::Uh),
            'u' => Some(ArpaPhone::Uw),
            'b' => Some(ArpaPhone::B),
            'd' => Some(ArpaPhone::D),
            '\u{F0}' => Some(ArpaPhone::Dh),
            'f' => Some(ArpaPhone::F),
            '\u{261}' => Some(ArpaPhone::G),
            'h' => Some(ArpaPhone::Hh),
            'k' => Some(ArpaPhone::K),
            'l' => Some(ArpaPhone::L),
            'm' => Some(ArpaPhone::M),
            'n' => Some(ArpaPhone::N),
            '\u{14B}' => Some(ArpaPhone::Ng),
            'p' => Some(ArpaPhone::P),
            '\u{279}' => Some(ArpaPhone::R),
            's' => Some(ArpaPhone::S),
            '\u{283}' => Some(ArpaPhone::Sh),
            't' => Some(ArpaPhone::T),
            '\u{3B8}' => Some(ArpaPhone::Th),
            'v' => Some(ArpaPhone::V),
            'w' => Some(ArpaPhone::W),
            'j' => Some(ArpaPhone::Y),
            'z' => Some(ArpaPhone::Z),
            '\u{292}' => Some(ArpaPhone::Zh),
            _ => None,
        }
    } else if s.len() == 2 {
        match (s[0], s[1]) {
            ('a', '\u{28A}') => Some(ArpaPhone::Aw),
            ('a', '\u{26A}') => Some(ArpaPhone::Ay),
            ('e', '\u{26A}') => Some(ArpaPhone::Ey),
            ('o', '\u{28A}') => Some(ArpaPhone::Ow),
            ('\u{254}', '\u{26A}') => Some(ArpaPhone::Oy),
            ('t', '\u{283}') => Some(ArpaPhone::Ch),
            ('d', '\u{292}') => Some(ArpaPhone::Jh),
            _ => None,
        }
    } else if s.len() == 3 {
        match (s[0], s[1], s[2]) {
            ('t', '\u{361}', '\u{283}') => Some(ArpaPhone::Ch),
            ('d', '\u{361}', '\u{292}') => Some(ArpaPhone::Jh),
            _ => None,
        }
    } else {
        None
    }
}

/// Converts one IPA phone into a phonetic unit that carries `context`.
/// Phones without a counterpart among the phones of this crate give
/// `UnsupportedIpa`.
pub fn ipa_to_unit(ipa: &str, context: Option<AuxiliarySymbol>) -> (r: Result<Unit, UnitError>)
    ensures
        r == match ipa_phone(ipa@) {
            Some(phone) => Ok::<Unit, UnitError>(Unit::Phone(PhoneticUnit { phone, context })),
            None => Err(UnitError::UnsupportedIpa),
        },
{
    let chars = to_chars(ipa);
    match ipa_phone_of(&chars) {
        Some(phone) => Ok(Unit::Phone(PhoneticUnit { phone, context })),
        None => Err(UnitError::UnsupportedIpa),
    }
}

/// Where a string of IPA stands while it is read grapheme by grapheme.
pub struct IpaScan {
    /// The units read so far.
    pub units: Seq<Unit>,
    /// A grapheme that may be the first half of a phone written with
    /// two.
    pub buffer: Seq<char>,
    /// The stress that the next phone will carry.
    pub stress: Option<AuxiliarySymbol>,
}

/// The graphemes that open a phone written with two: `t`, `a`, `d`, `o`.
pub open spec fn opens_pair(g: Seq<char>) -> bool {
    g == seq!['t'] || g == seq!['a'] || g == seq!['d'] || g == seq!['o']
}

/// The unit that one grapheme stands for: a space for whitespace, a
/// phone where it is one, and the unknown unit otherwise.
pub open spec fn grapheme_unit(g: Seq<char>, stress: Option<AuxiliarySymbol>) -> Unit {
    if is_blank(g) {
        Unit::Space
    } else {
        match ipa_phone(g) {
            Some(phone) => Unit::Phone(PhoneticUnit { phone, context: stress }),
            None => Unit::Unk,
        }
    }
}

/// The scan after one more grapheme.
///
/// A stress mark sets the stress of the phone that follows. A grapheme
/// that may open a pair is held back until the next one shows whether
/// the two make a phone together. A stress is used up by the phone that
/// carries it.
pub open spec fn ipa_step(scan: IpaScan, g: Seq<char>) -> IpaScan {
    if scan.buffer.len() == 0 {
        if g == seq!['\''] || g == seq!['\u{2C8}'] {
            IpaScan { stress: Some(AuxiliarySymbol::PrimaryStress), ..scan }
        } else if g == seq!['\u{2CC}'] {
            IpaScan { stress: Some(AuxiliarySymbol::SecondaryStress), ..scan }
        } else if opens_pair(g) {
            IpaScan { buffer: g, ..scan }
        } else {
            IpaScan {
                units: scan.units.push(grapheme_unit(g, scan.stress)),
                buffer: Seq::empty(),
                stress: None,
            }
        }
    } else {
        match ipa_phone(scan.buffer + g) {
            Some(phone) => IpaScan {
                units: scan.units.push(Unit::Phone(PhoneticUnit { phone, context: scan.stress })),
                buffer: Seq::empty(),
                stress: None,
            },
            None => {
                let units = scan.units.push(grapheme_unit(scan.buffer, scan.stress));
                if opens_pair(g) {
                    IpaScan { units, buffer: g, stress: scan.stress }
                } else {
                    IpaScan {
                        units: units.push(grapheme_unit(g, scan.stress)),
                        buffer: Seq::empty(),
                        stress: None,
                    }
                }
            },
        }
    }
}

/// The scan after all the graphemes.
pub open spec fn ipa_scan(graphemes: Seq<Seq<char>>) -> IpaScan
    decreases graphemes.len(),
{
    if graphemes.len() == 0 {
        IpaScan { units: Seq::empty(), buffer: Seq::empty(), stress: None }
    } else {
        ipa_step(ipa_scan(graphemes.drop_last()), graphemes.last())
    }
}

/// The units that a string of IPA stands for, given its graphemes. A
/// grapheme held back at the end is not spoken.
pub open spec fn ipa_units(graphemes: Seq<Seq<char>>) -> Seq<Unit> {
    ipa_scan(graphemes).units
}

fn unit_of_grapheme(g: &Vec<char>, stress: Option<AuxiliarySymbol>) -> (u: Unit)
    ensures
        u == grapheme_unit(g@, stress),
{
    if is_blank_text(g) {
        Unit::Space
    } else {
        match ipa_phone_of(g) {
            Some(phone) => Unit::Phone(PhoneticUnit { phone, context: stress }),
            None => Unit::Unk,
        }
    }
}

fn grapheme_opens_pair(g: &Vec<char>) -> (r: bool)
    ensures
        r == opens_pair(g@),
{
    if g.len() == 1 {
        let c = g[0];
        let r = c == 't' || c == 'a' || c == 'd' || c == 'o';
        assert(g@ == seq![c]);
        r
    } else {
        false
    }
}

fn is_single(g: &Vec<char>, c: char) -> (r: bool)
    ensures
        r == (g@ == seq![c]),
{
    if g.len() == 1 {
        if g[0] == c {
            assert(g@ == seq![c]);
            true
        } else {
            false
        }
    } else {
        false
    }
}

/// Converts the graphemes of a string of IPA into units.
pub fn units_from_graphemes(graphemes: &Vec<String>) -> (units: Vec<Unit>)
    ensures
        units@ == ipa_units(graphemes@.map_values(|g: String| g@)),
{
    let ghost all = graphemes@.map_values(|g: String| g@);
    let mut units: Vec<Unit> = Vec::new();
    let mut buffer: Vec<char> = Vec::new();
    let mut stress: Option<AuxiliarySymbol> = None;
    let mut i: usize = 0;
    while i < graphemes.len()
        invariant
            i <= graphemes.len(),
            all == graphemes@.map_values(|g: String| g@),
            ipa_scan(all.take(i as int)) == (IpaScan { units: units@, buffer: buffer@, stress }),
        decreases graphemes.len() - i,
    {
        proof {
            assert(all.take(i + 1).drop_last() == all.take(i as int));
        }
        let g = to_chars(graphemes[i].as_str());
        if buffer.len() == 0 {
            if is_single(&g, '\'') || is_single(&g, '\u{2C8}') {
                stress = Some(AuxiliarySymbol::PrimaryStress);
            } else if is_single(&g, '\u{2CC}') {
                stress = Some(AuxiliarySymbol::SecondaryStress);
            } else if grapheme_opens_pair(&g) {
                buffer = g;
            } else {
                units.push(unit_of_grapheme(&g, stress));
                stress = None;
                assert(buffer@ == Seq::<char>::empty());
            }
        } else {
            let mut joined = slice(&buffer, 0, buffer.len());
            append(&mut joined, &g);
            match ipa_phone_of(&joined) {
                Some(phone) => {
                    units.push(Unit::Phone(PhoneticUnit { phone, context: stress }));
                    stress = None;
                    buffer = Vec::new();
                },
                None => {
                    units.push(unit_of_grapheme(&buffer, stress));
                    if grapheme_opens_pair(&g) {
                        buffer = g;
                    } else {
                        units.push(unit_of_grapheme(&g, stress));
                        stress = None;
                        buffer = Vec::new();
                    }
                },
            }
        }
        i += 1;
    }
    assert(all.take(graphemes.len() as int) == all);
    units
}

/// Converts a string of IPA into units: the string is cut into its
/// graphemes, and phones that are written with two graphemes are put
/// together again.
pub fn ipa_string_to_units(ipa: &str) -> (units: Vec<Unit>)
    ensures
        units@ == ipa_units(grapheme_clusters(ipa@)),
{
    let parts = graphemes(ipa);
    units_from_graphemes(&parts)
}

/// The number of codes that phonetic units have.
pub const UNIT_CODES: usize = 546;

/// A number for each phonetic unit, in the order of the units: by phone
/// first, and for one phone the bare one before the marked ones.
pub open spec fn unit_code(u: PhoneticUnit) -> int {
    u.phone.index() * 14 + match u.context {
        None => 0,
        Some(a) => a.index() + 1,
    }
}

/// The phonetic unit with a given code.
pub open spec fn unit_with_code(code: int) -> PhoneticUnit {
    PhoneticUnit {
        phone: ArpaPhone::at((code / 14) as u8),
        context: if code % 14 == 0 {
            None
        } else {
            Some(AuxiliarySymbol::at((code % 14 - 1) as u8))
        },
    }
}

/// Every unit is the one with its code.
pub proof fn lemma_unit_code_round_trip(u: PhoneticUnit)
    ensures
        0 <= unit_code(u) < UNIT_CODES,
        unit_with_code(unit_code(u)) == u,
{
    let p = u.phone.index();
    assert(ArpaPhone::at(p as u8) == u.phone);
    match u.context {
        None => {
            assert((p * 14) / 14 == p && (p * 14) % 14 == 0);
        },
        Some(a) => {
            let k = a.index();
            assert(AuxiliarySymbol::at(k as u8) == a);
            assert((p * 14 + k + 1) / 14 == p && (p * 14 + k + 1) % 14 == k + 1);
        },
    }
}

impl PhoneticUnit {
    /// The code of the unit.
    pub fn code(&self) -> (c: usize)
        ensures
            c == unit_code(*self),
            c < UNIT_CODES,
    {
        let p: usize = self.phone.ordinal() as usize;
        let k: usize = match self.context {
            None => 0,
            Some(a) => a.ordinal() as usize + 1,
        };
        p * 14 + k
    }

    /// The unit with the given code, where the code is one of a unit.
    pub fn from_code(code: usize) -> (r: Option<PhoneticUnit>)
        ensures
            r == if code < UNIT_CODES {
                Some(unit_with_code(code as int))
            } else {
                None
            },
    {
        if code >= UNIT_CODES {
            return None;
        }
        let phone = ArpaPhone::from_ordinal((code / 14) as u8);
        let rest = code % 14;
        let context = if rest == 0 {
            None
        } else {
            Some(AuxiliarySymbol::from_ordinal((rest - 1) as u8))
        };
        Some(PhoneticUnit { phone, context })
    }
}

/// Reading the textual form of a phone gives the phone back.
pub proof fn lemma_phone_round_trip(p: ArpaPhone)
    ensures
        arpa_phone(p.symbol()) == Some(p),
        1 <= p.symbol().len() <= 2,
        p.symbol().len() == 2 ==> is_phone_letter(p.symbol()[1]),
{
}

/// Reading the textual form of an auxiliary symbol gives the symbol back.
pub proof fn lemma_symbol_round_trip(a: AuxiliarySymbol)
    ensures
        auxiliary_symbol(a.symbol()) == Some(a),
        1 <= a.symbol().len() <= 2,
        !is_phone_letter(a.symbol()[0]),
{
}

/// Reading the textual form of a phonetic unit gives the unit back.
pub proof fn lemma_phonetic_unit_round_trip(u: PhoneticUnit)
    ensures
        phonetic_unit(u.text()) == Ok::<PhoneticUnit, UnitError>(u),
{
    lemma_phone_round_trip(u.phone);
    let s = u.text();
    let p = u.phone.symbol();
    match u.context {
        None => {
            assert(s.take(phone_end(s)) == p);
        },
        Some(a) => {
            lemma_symbol_round_trip(a);
            let t = a.symbol();
            assert(s.len() == p.len() + t.len());
            assert(s[0] == p[0]);
            if p.len() == 2 {
                assert(s[1] == p[1]);
            } else {
                assert(s[1] == t[0]);
            }
            assert(phone_end(s) == p.len());
            assert(s.take(p.len() as int) == p);
            assert(s.skip(p.len() as int) == t);
        },
    }
}

/// The textual form of a phonetic unit neither starts nor ends with
/// whitespace, and is no punctuation mark.
proof fn lemma_phonetic_text_is_solid(u: PhoneticUnit)
    ensures
        1 <= u.text().len() <= 4,
        !is_whitespace(u.text()[0]),
        !is_whitespace(u.text().last()),
        punctuation_mark(u.text()[0]) is None,
{
    lemma_phone_round_trip(u.phone);
    let p = u.phone.symbol();
    assert(!is_whitespace(p[0]) && !is_whitespace(p.last()) && punctuation_mark(p[0]) is None);
    match u.context {
        None => {},
        Some(a) => {
            lemma_symbol_round_trip(a);
            let t = a.symbol();
            assert(!is_whitespace(t.last()));
            assert(u.text()[0] == p[0]);
            assert(u.text().last() == t.last());
        },
    }
}

/// A text that neither starts nor ends with whitespace is not changed
/// by trimming.
proof fn lemma_trim_solid(s: Seq<char>)
    requires
        s.len() > 0,
        !is_whitespace(s[0]),
        !is_whitespace(s.last()),
    ensures
        trim(s) == s,
{
    lemma_leading_whitespace_is(s, 0);
    assert(s.skip(0) == s);
    lemma_trailing_whitespace_is(s, 0);
    assert(s.take(s.len() as int) == s);
}

/// Reading the textual form of a unit gives the unit back. Characters
/// are left out: a letter that names a phone reads as the phone, a
/// punctuation mark as the mark, and whitespace as the space.
pub proof fn lemma_unit_round_trip(u: Unit)
    requires
        !(u is Character),
    ensures
        unit(u.text()) == Ok::<Unit, UnitError>(u),
{
    let s = u.text();
    match u {
        Unit::Space => {
            lemma_leading_whitespace_is(s, 1);
            assert(s.skip(1).len() == 0);
            assert(trim(s).len() == 0);
        },
        Unit::Punct(p) => {
            assert(s[0] == p.symbol());
            assert(!is_whitespace(p.symbol()));
            lemma_trim_solid(s);
            assert(punctuation_mark(p.symbol()) == Some(p));
        },
        Unit::Padding => {
            assert(s[0] == '<' && s.last() == '>');
            lemma_trim_solid(s);
        },
        Unit::Unk => {
            assert(s[0] == '<' && s.last() == '>');
            lemma_trim_solid(s);
            assert(s[1] == 'U' && padding_text()[1] == 'P');
        },
        Unit::Phone(p) => {
            lemma_phonetic_text_is_solid(p);
            lemma_trim_solid(s);
            lemma_phonetic_unit_round_trip(p);
            assert(padding_text().len() == 5 && unknown_text().len() == 5);
        },
        Unit::Character(_) => {},
    }
}

} // verus!
