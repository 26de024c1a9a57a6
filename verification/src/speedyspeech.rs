//! Support for a second spectrogram model, one that is fed phones with
//! their stress.
use crate::phonemes::{ArpaPhone, AuxiliarySymbol, PhoneticUnit, Punctuation, Unit};
use crate::tacotron2::{plain, stressed};
use crate::vocabulary::UnitVocabulary;
use vstd::prelude::*;

verus! {

/// The entries of one phone: a consonant stands alone, a vowel stands
/// with no, primary and secondary stress. The vowel `UW` has an entry
/// without stress as well.
pub open spec fn phone_entries(phone: ArpaPhone) -> Seq<Unit> {
    if phone == ArpaPhone::Uw {
        seq![
            plain(phone),
            stressed(phone, AuxiliarySymbol::NoStress),
            stressed(phone, AuxiliarySymbol::PrimaryStress),
            stressed(phone, AuxiliarySymbol::SecondaryStress),
        ]
    } else if phone.is_vowel() {
        seq![
            stressed(phone, AuxiliarySymbol::NoStress),
            stressed(phone, AuxiliarySymbol::PrimaryStress),
            stressed(phone, AuxiliarySymbol::SecondaryStress),
        ]
    } else {
        seq![plain(phone)]
    }
}

/// The entries of the first `n` phones of the alphabetical list.
pub open spec fn phone_units(n: int) -> Seq<Unit>
    decreases n,
{
    if n <= 0 {
        Seq::empty()
    } else {
        phone_units(n - 1) + phone_entries(ArpaPhone::at((n - 1) as u8))
    }
}

/// The last entries of the vocabulary: the space and five punctuation
/// marks.
pub open spec fn mark_units() -> Seq<Unit> {
    seq![
        Unit::Space,
        Unit::Punct(Punctuation::FullStop),
        Unit::Punct(Punctuation::Comma),
        Unit::Punct(Punctuation::QuestionMark),
        Unit::Punct(Punctuation::ExclamationMark),
        Unit::Punct(Punctuation::Dash),
    ]
}

/// The vocabulary of the model: padding, the unknown unit, the phones,
/// the marks.
pub open spec fn id_list() -> Seq<Unit> {
    seq![Unit::Padding, Unit::Unk] + phone_units(39) + mark_units()
}

proof fn lemma_phone_units_len(n: int)
    requires
        0 <= n <= 39,
    ensures
        n <= phone_units(n).len() <= 4 * n,
    decreases n,
{
    if n > 0 {
        lemma_phone_units_len(n - 1);
    }
}

/// Generates the ordered list of the units that the model knows.
/// Padding has index 0 and the unknown unit index 1.
pub fn generate_id_list() -> (list: Vec<Unit>)
    ensures
        list@ == id_list(),
        list@[0] == Unit::Padding,
        list@[1] == Unit::Unk,
        47 <= list@.len() <= 164,
{
    let mut list: Vec<Unit> = vec![Unit::Padding, Unit::Unk];
    let mut n: u8 = 0;
    while n < 39
        invariant
            n <= 39,
            list@ == seq![Unit::Padding, Unit::Unk] + phone_units(n as int),
        decreases 39 - n,
    {
        let phone = ArpaPhone::from_ordinal(n);
        let vowel = phone.vowel();
        if !vowel || phone == ArpaPhone::Uw {
            list.push(Unit::Phone(PhoneticUnit { phone, context: None }));
        }
        if vowel {
            list.push(Unit::Phone(PhoneticUnit { phone, context: Some(AuxiliarySymbol::NoStress) }));
            list.push(
                Unit::Phone(PhoneticUnit { phone, context: Some(AuxiliarySymbol::PrimaryStress) }),
            );
            list.push(
                Unit::Phone(PhoneticUnit { phone, context: Some(AuxiliarySymbol::SecondaryStress) }),
            );
        }
        n += 1;
    }
    list.push(Unit::Space);
    list.push(Unit::Punct(Punctuation::FullStop));
    list.push(Unit::Punct(Punctuation::Comma));
    list.push(Unit::Punct(Punctuation::QuestionMark));
    list.push(Unit::Punct(Punctuation::ExclamationMark));
    list.push(Unit::Punct(Punctuation::Dash));
    proof {
        lemma_phone_units_len(39);
    }
    list
}

/// The vocabulary of the model.
pub fn vocabulary() -> (v: UnitVocabulary)
    ensures
        v.wf(),
        v.has_unknown(),
        v@ == id_list(),
{
    UnitVocabulary::from_units(generate_id_list())
}

} // verus!
